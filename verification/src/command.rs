//! The commands a player sends over the websocket, such as `/play 3`.

use crate::request::{split_str, split_str_exec};
use vstd::prelude::*;

verus! {

/// Whether `c` is white space: the characters with the Unicode property
/// White_Space.
pub open spec fn is_white(c: char) -> bool {
    let n = c as u32;
    ||| 0x09 <= n <= 0x0D
    ||| n == 0x20
    ||| n == 0x85
    ||| n == 0xA0
    ||| n == 0x1680
    ||| 0x2000 <= n <= 0x200A
    ||| n == 0x2028
    ||| n == 0x2029
    ||| n == 0x202F
    ||| n == 0x205F
    ||| n == 0x3000
}

fn is_white_exec(c: char) -> (b: bool)
    ensures
        b == is_white(c),
{
    let n = c as u32;
    (0x09 <= n && n <= 0x0D) || n == 0x20 || n == 0x85 || n == 0xA0 || n == 0x1680 || (0x2000
        <= n && n <= 0x200A) || n == 0x2028 || n == 0x2029 || n == 0x202F || n == 0x205F || n
        == 0x3000
}

/// `s` without its leading white space.
pub open spec fn trim_start(s: Seq<char>) -> Seq<char>
    decreases s.len(),
{
    if s.len() > 0 && is_white(s[0]) {
        trim_start(s.drop_first())
    } else {
        s
    }
}

/// `s` without its trailing white space.
pub open spec fn trim_end(s: Seq<char>) -> Seq<char>
    decreases s.len(),
{
    if s.len() > 0 && is_white(s.last()) {
        trim_end(s.drop_last())
    } else {
        s
    }
}

/// `s` without its leading and trailing white space.
pub open spec fn trim(s: Seq<char>) -> Seq<char> {
    trim_end(trim_start(s))
}

proof fn lemma_trim_start_skip(s: Seq<char>, k: int)
    requires
        0 <= k <= s.len(),
        forall|m: int| 0 <= m < k ==> is_white(#[trigger] s[m]),
    ensures
        trim_start(s) == trim_start(s.skip(k)),
    decreases k,
{
    if k > 0 {
        lemma_trim_start_skip(s, k - 1);
        assert(s.skip(k - 1).drop_first() =~= s.skip(k));
    } else {
        assert(s.skip(0) =~= s);
    }
}

proof fn lemma_trim_end_take(s: Seq<char>, k: int)
    requires
        0 <= k <= s.len(),
        forall|m: int| k <= m < s.len() ==> is_white(#[trigger] s[m]),
    ensures
        trim_end(s) == trim_end(s.take(k)),
    decreases s.len() - k,
{
    if k < s.len() {
        lemma_trim_end_take(s, k + 1);
        assert(s.take(k + 1).drop_last() =~= s.take(k));
    } else {
        assert(s.take(k) =~= s);
    }
}

/// Removes leading and trailing white space.
pub fn trim_exec(s: &str) -> (t: String)
    ensures
        t@ == trim(s@),
{
    let len = s.unicode_len();
    let mut i: usize = 0;
    while i < len && is_white_exec(s.get_char(i))
        invariant
            i <= len,
            len == s@.len(),
            forall|m: int| 0 <= m < i ==> is_white(#[trigger] s@[m]),
        decreases len - i,
    {
        i = i + 1;
    }
    proof {
        lemma_trim_start_skip(s@, i as int);
    }
    assert(trim_start(s@.skip(i as int)) == s@.skip(i as int));
    let mut j: usize = len;
    while j > i && is_white_exec(s.get_char(j - 1))
        invariant
            i <= j <= len,
            len == s@.len(),
            forall|m: int| j <= m < len ==> is_white(#[trigger] s@[m]),
        decreases j,
    {
        j = j - 1;
    }
    let ghost rest = s@.skip(i as int);
    proof {
        assert forall|m: int| j - i <= m < rest.len() implies is_white(#[trigger] rest[m]) by {
            assert(rest[m] == s@[m + i]);
        }
        lemma_trim_end_take(rest, j - i);
        assert(rest.take(j - i) =~= s@.subrange(i as int, j as int));
    }
    String::from_str(s.substring_char(i, j))
}

/// Whether `c` is a decimal digit.
pub open spec fn is_digit(c: char) -> bool {
    48 <= c as u32 <= 57
}

/// Every character of `s` is a decimal digit.
pub open spec fn all_digits(s: Seq<char>) -> bool {
    forall|i: int| 0 <= i < s.len() ==> is_digit(#[trigger] s[i])
}

/// The number written by the digits `s`.
pub open spec fn digits_value(s: Seq<char>) -> int
    decreases s.len(),
{
    if s.len() == 0 {
        0
    } else {
        digits_value(s.drop_last()) * 10 + (s.last() as u32 - 48)
    }
}

/// What reading `s` as an index gives: an optional `+`, then at least one
/// digit and nothing else, for a number that fits a `usize`.
pub open spec fn parse_index_spec(s: Seq<char>) -> Option<usize> {
    let d = if s.len() > 0 && s[0] == '+' {
        s.drop_first()
    } else {
        s
    };
    if d.len() == 0 || !all_digits(d) || digits_value(d) > usize::MAX {
        None
    } else {
        Some(digits_value(d) as usize)
    }
}

proof fn lemma_digits_value_grows(s: Seq<char>, k: int)
    requires
        0 <= k <= s.len(),
        forall|i: int| 0 <= i < s.len() ==> is_digit(#[trigger] s[i]),
    ensures
        digits_value(s) >= digits_value(s.take(k)) >= 0,
    decreases s.len(),
{
    if s.len() > 0 {
        if k < s.len() {
            lemma_digits_value_grows(s.drop_last(), k);
            assert(s.drop_last().take(k) =~= s.take(k));
        } else {
            assert(s.take(k) =~= s);
            lemma_digits_value_grows(s.drop_last(), 0);
        }
    } else {
        assert(s.take(k) =~= s);
    }
}

/// Reads an index the way `str::parse::<usize>` does; `None` where that
/// gives an error.
pub fn parse_index(s: &str) -> (r: Option<usize>)
    ensures
        r == parse_index_spec(s@),
{
    let len = s.unicode_len();
    let mut start: usize = 0;
    if len > 0 && s.get_char(0) == '+' {
        start = 1;
    }
    let ghost d = if s@.len() > 0 && s@[0] == '+' {
        s@.drop_first()
    } else {
        s@
    };
    assert(d =~= s@.skip(start as int));
    if start == len {
        return None;
    }
    let mut value: usize = 0;
    let mut i: usize = start;
    while i < len
        invariant
            start <= i <= len,
            len == s@.len(),
            d == s@.skip(start as int),
            d == (if s@.len() > 0 && s@[0] == '+' {
                s@.drop_first()
            } else {
                s@
            }),
            forall|m: int| 0 <= m < i - start ==> is_digit(#[trigger] d[m]),
            value == digits_value(d.take(i - start)),
        decreases len - i,
    {
        let c = s.get_char(i);
        assert(c == d[i - start]);
        let n = c as u32;
        if !(48 <= n && n <= 57) {
            assert(!is_digit(d[i - start]));
            assert(!all_digits(d));
            return None;
        }
        let digit = (n - 48) as usize;
        assert(d.take(i - start + 1).drop_last() =~= d.take(i - start));
        proof {
            let k = i - start + 1;
            assert(d.take(k).last() == c);
            assert(digits_value(d.take(k)) == value * 10 + digit);
            if all_digits(d) {
                lemma_digits_value_grows(d, k);
                assert(digits_value(d) >= value * 10 + digit);
            } else {
                assert(parse_index_spec(s@) is None);
            }
            assert(parse_index_spec(s@) is None || digits_value(d) >= value * 10 + digit);
        }
        match value.checked_mul(10) {
            None => {
                return None;
            },
            Some(v10) => match v10.checked_add(digit) {
                None => {
                    return None;
                },
                Some(v) => {
                    value = v;
                },
            },
        }
        i = i + 1;
    }
    assert(d.take(len - start) =~= d);
    Some(value)
}

/// A command sent by a player.
#[derive(Debug)]
pub enum Command {
    /// `/join NAME`
    Join(String),
    /// `/play INDEX`
    Play(usize),
    /// `/discard INDEX`
    Discard(usize),
    /// `/swap INDEX INDEX`
    Swap(usize, usize),
    /// `/hint HINT PLAYER`: the hint as written, and the receiver's name.
    Hint(String, String),
    /// A command with the wrong number of words, answered with this text.
    Malformed(String),
    /// A command word that is not known; holds the whole trimmed text.
    Unknown(String),
    /// An index that is not a number.
    BadIndex,
    /// Text that is not a command: it does not start with `/`.
    NotCommand,
}

/// What a command is read as.
pub enum CommandModel {
    Join(Seq<char>),
    Play(usize),
    Discard(usize),
    Swap(usize, usize),
    Hint(Seq<char>, Seq<char>),
    Malformed(Seq<char>),
    Unknown(Seq<char>),
    BadIndex,
    NotCommand,
}

/// `/play` (when `play` holds) or `/discard` of the index written as
/// `word`, or a bad index when `word` is not a number.
pub open spec fn index_command(word: Seq<char>, play: bool) -> CommandModel {
    match parse_index_spec(word) {
        None => CommandModel::BadIndex,
        Some(i) => if play {
            CommandModel::Play(i)
        } else {
            CommandModel::Discard(i)
        },
    }
}

/// How a text is read as a command. The text is trimmed of white space;
/// if it does not start with `/` it is no command. It is split into words
/// at single spaces; the first word names the command, which takes one
/// argument (`/join`, `/play`, `/discard`) or two (`/swap`, `/hint`);
/// with another number of words the command is malformed. Indices must
/// read as numbers.
pub open spec fn command_spec(text: Seq<char>) -> CommandModel {
    let m = trim(text);
    if m.len() == 0 || m[0] != '/' {
        CommandModel::NotCommand
    } else {
        let v = split_str(m, " "@);
        if v[0] == "/join"@ {
            if v.len() == 2 {
                CommandModel::Join(v[1])
            } else {
                CommandModel::Malformed("ERROR: Malformed Join request"@)
            }
        } else if v[0] == "/play"@ {
            if v.len() == 2 {
                index_command(v[1], true)
            } else {
                CommandModel::Malformed("ERROR: Malformed Play request"@)
            }
        } else if v[0] == "/discard"@ {
            if v.len() == 2 {
                index_command(v[1], false)
            } else {
                CommandModel::Malformed("ERROR: Malformed Discard request"@)
            }
        } else if v[0] == "/swap"@ {
            if v.len() == 3 {
                match (parse_index_spec(v[1]), parse_index_spec(v[2])) {
                    (Some(i), Some(j)) => CommandModel::Swap(i, j),
                    _ => CommandModel::BadIndex,
                }
            } else {
                CommandModel::Malformed("ERROR: Malformed Swap request"@)
            }
        } else if v[0] == "/hint"@ {
            if v.len() == 3 {
                CommandModel::Hint(v[1], v[2])
            } else {
                CommandModel::Malformed("ERROR: Malformed Hint request"@)
            }
        } else {
            CommandModel::Unknown(m)
        }
    }
}

/// `c` is the command described by `cm`.
pub open spec fn command_matches(c: Command, cm: CommandModel) -> bool {
    match (c, cm) {
        (Command::Join(a), CommandModel::Join(b)) => a@ == b,
        (Command::Play(a), CommandModel::Play(b)) => a == b,
        (Command::Discard(a), CommandModel::Discard(b)) => a == b,
        (Command::Swap(a1, a2), CommandModel::Swap(b1, b2)) => a1 == b1 && a2 == b2,
        (Command::Hint(a1, a2), CommandModel::Hint(b1, b2)) => a1@ == b1 && a2@ == b2,
        (Command::Malformed(a), CommandModel::Malformed(b)) => a@ == b,
        (Command::Unknown(a), CommandModel::Unknown(b)) => a@ == b,
        (Command::BadIndex, CommandModel::BadIndex) => true,
        (Command::NotCommand, CommandModel::NotCommand) => true,
        _ => false,
    }
}

/// Reads a text sent by a player as a command; see `command_spec`.
pub fn parse_command(text: &str) -> (c: Command)
    ensures
        command_matches(c, command_spec(text@)),
{
    let m = trim_exec(text);
    if m.as_str().unicode_len() == 0 || m.as_str().get_char(0) != '/' {
        return Command::NotCommand;
    }
    proof {
        reveal_strlit(" ");
    }
    let v = split_str_exec(m.as_str(), " ");
    let ghost vs = v@.map_values(|p: String| p@);
    assert(vs.len() >= 1) by {
        crate::request::lemma_split_nonempty(m@, " "@);
    }
    assert(v@[0]@ == vs[0]);
    assert(v@.len() >= 2 ==> v@[1]@ == vs[1]);
    assert(v@.len() >= 3 ==> v@[2]@ == vs[2]);
    let word = &v[0];
    if *word == String::from_str("/join") {
        if v.len() == 2 {
            Command::Join(v[1].clone())
        } else {
            Command::Malformed(String::from_str("ERROR: Malformed Join request"))
        }
    } else if *word == String::from_str("/play") {
        if v.len() == 2 {
            match parse_index(v[1].as_str()) {
                Some(i) => Command::Play(i),
                None => Command::BadIndex,
            }
        } else {
            Command::Malformed(String::from_str("ERROR: Malformed Play request"))
        }
    } else if *word == String::from_str("/discard") {
        if v.len() == 2 {
            match parse_index(v[1].as_str()) {
                Some(i) => Command::Discard(i),
                None => Command::BadIndex,
            }
        } else {
            Command::Malformed(String::from_str("ERROR: Malformed Discard request"))
        }
    } else if *word == String::from_str("/swap") {
        if v.len() == 3 {
            let first = parse_index(v[1].as_str());
            let second = parse_index(v[2].as_str());
            match (first, second) {
                (Some(i), Some(j)) => Command::Swap(i, j),
                _ => Command::BadIndex,
            }
        } else {
            Command::Malformed(String::from_str("ERROR: Malformed Swap request"))
        }
    } else if *word == String::from_str("/hint") {
        if v.len() == 3 {
            Command::Hint(v[1].clone(), v[2].clone())
        } else {
            Command::Malformed(String::from_str("ERROR: Malformed Hint request"))
        }
    } else {
        Command::Unknown(m)
    }
}

} // verus!
