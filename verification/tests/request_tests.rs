use hanabi::request::{split_str_exec, Header, Message, Method};

#[test]
fn request_line_is_read() {
    match Header::parse("GET /index.html HTTP/1.1") {
        Ok(Header::Request(m, uri)) => {
            assert_eq!(m, Method::GET);
            assert_eq!(uri, "/index.html");
        }
        _ => panic!("expected a request"),
    }
    match Header::parse("POST / HTTP/1.1") {
        Ok(Header::Request(m, uri)) => {
            assert_eq!(m, Method::POST);
            assert_eq!(uri, "/");
        }
        _ => panic!("expected a request"),
    }
}

#[test]
fn malformed_request_lines_are_refused() {
    for line in ["PUT / HTTP/1.1", "GET /", "GET  / HTTP/1.1", "", "GET / HTTP/1.1 x"].iter() {
        match Header::parse(line) {
            Err(e) => assert_eq!(e, "Invalid header"),
            Ok(_) => panic!("accepted {:?}", line),
        }
    }
}

#[test]
fn splitting_at_a_separator() {
    assert_eq!(split_str_exec("a, b, c", ", "), vec!["a", "b", "c"]);
    assert_eq!(split_str_exec("", ","), vec![""]);
    assert_eq!(split_str_exec("a,", ","), vec!["a", ""]);
    assert_eq!(split_str_exec("x\r\n\r\ny", "\r\n"), vec!["x", "", "y"]);
}

#[test]
fn message_with_fields_and_body() {
    let m = Message::parse("POST /play HTTP/1.1\r\nHost: a: b\r\nAction-Type: play\r\n\r\nline1\r\nline2").unwrap();
    match m.header {
        Header::Request(method, uri) => {
            assert_eq!(method, Method::POST);
            assert_eq!(uri, "/play");
        }
        _ => panic!("expected a request"),
    }
    assert_eq!(m.fields.len(), 2);
    assert!(m.fields.contains(&(String::from("Host"), String::from("a"))));
    assert!(m.fields.contains(&(String::from("Action-Type"), String::from("play"))));
    assert_eq!(m.body, Some(String::from("line1line2")));
}

#[test]
fn message_without_body() {
    let m = Message::parse("GET / HTTP/1.1\r\n\r\n").unwrap();
    assert!(m.fields.is_empty());
    assert_eq!(m.body, None);
}

#[test]
fn malformed_messages_are_refused() {
    assert_eq!(Message::parse("BREW / HTTP/1.1\r\n\r\n").unwrap_err(), "Invalid header");
    assert_eq!(Message::parse("GET / HTTP/1.1\r\nHost: a").unwrap_err(), "Invalid message");
    assert_eq!(Message::parse("GET / HTTP/1.1\r\nno separator\r\n\r\n").unwrap_err(), "Invalid message");
}

#[test]
fn empty_message() {
    let m = Message::new();
    match m.header {
        Header::Response(code, reason) => {
            assert_eq!(code, -1);
            assert_eq!(reason, "");
        }
        _ => panic!("expected a response header"),
    }
    assert!(m.fields.is_empty());
    assert!(m.body.is_none());
}

#[test]
fn repeated_field_keeps_the_last_value() {
    let m = Message::parse("GET / HTTP/1.1\r\nCookie: a\r\nHost: h\r\nCookie: b\r\n\r\n").unwrap();
    assert_eq!(m.fields.len(), 2);
    assert!(m.fields.contains(&(String::from("Cookie"), String::from("b"))));
    assert!(m.fields.contains(&(String::from("Host"), String::from("h"))));
}
