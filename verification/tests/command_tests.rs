use hanabi::command::{parse_command, parse_index, trim_exec, Command};

#[test]
fn commands_with_their_arguments() {
    match parse_command("  /join alice \n") {
        Command::Join(name) => assert_eq!(name, "alice"),
        c => panic!("{:?}", c),
    }
    assert!(matches!(parse_command("/play 3"), Command::Play(3)));
    assert!(matches!(parse_command("/discard +0"), Command::Discard(0)));
    assert!(matches!(parse_command("/swap 1 4"), Command::Swap(1, 4)));
    match parse_command("/hint {\"variant\":\"ColorHint\",\"fields\":[\"Red\"]} bob") {
        Command::Hint(hint, other) => {
            assert_eq!(hint, "{\"variant\":\"ColorHint\",\"fields\":[\"Red\"]}");
            assert_eq!(other, "bob");
        }
        c => panic!("{:?}", c),
    }
}

#[test]
fn wrong_word_counts_are_malformed() {
    let cases = [
        ("/join", "ERROR: Malformed Join request"),
        ("/join a b", "ERROR: Malformed Join request"),
        ("/play", "ERROR: Malformed Play request"),
        ("/discard 1 2", "ERROR: Malformed Discard request"),
        ("/swap 1", "ERROR: Malformed Swap request"),
        ("/hint x", "ERROR: Malformed Hint request"),
        ("/play  3", "ERROR: Malformed Play request"),
    ];
    for (text, answer) in cases.iter() {
        match parse_command(text) {
            Command::Malformed(a) => assert_eq!(a, *answer),
            c => panic!("{:?} gave {:?}", text, c),
        }
    }
}

#[test]
fn unknown_commands_bad_indices_and_plain_text() {
    match parse_command(" /dance now ") {
        Command::Unknown(m) => assert_eq!(m, "/dance now"),
        c => panic!("{:?}", c),
    }
    assert!(matches!(parse_command("/play x"), Command::BadIndex));
    assert!(matches!(parse_command("/swap 1 -2"), Command::BadIndex));
    assert!(matches!(parse_command("hello"), Command::NotCommand));
    assert!(matches!(parse_command("   "), Command::NotCommand));
}

#[test]
fn indices_read_like_parse_usize() {
    for s in ["0", "42", "+7", "007", "18446744073709551615", "", "+", "-1", "1a", "18446744073709551616", " 1"].iter() {
        assert_eq!(parse_index(s), s.parse::<usize>().ok(), "{:?}", s);
    }
}

#[test]
fn trimming_white_space() {
    assert_eq!(trim_exec("\t a b \r\n"), "a b");
    assert_eq!(trim_exec("\u{3000}x\u{a0}"), "x");
    assert_eq!(trim_exec("  "), "");
    for s in [" x ", "\u{2009}y\u{85}", "z"].iter() {
        assert_eq!(trim_exec(s), s.trim());
    }
}
