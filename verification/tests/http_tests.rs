use hanabi::http::{decimal_string, find, get_response, get_route, make_HTTP_respone, Route};

#[test]
fn response_is_status_headers_and_body() {
    let r = make_HTTP_respone(
        String::from("200 OK"),
        vec![String::from("A: b"), String::from("C: d")],
        String::from("body"),
    );
    assert_eq!(r, "HTTP/1.1 200 OK\r\nA: b\r\nC: d\r\n\r\nbody");
    let r = make_HTTP_respone(String::from("204"), Vec::new(), String::new());
    assert_eq!(r, "HTTP/1.1 204\r\n\r\n");
}

#[test]
fn find_counts_characters() {
    assert_eq!(find("GET /x HTTP/1.1", "/"), Some(4));
    assert_eq!(find("GET /x HTTP/1.1", " HTTP/1.1"), Some(6));
    assert_eq!(find("abc", "z"), None);
    assert_eq!(find("abc", ""), Some(0));
    assert_eq!(find("ééx", "x"), Some(2));
}

#[test]
fn routes_of_requests() {
    assert_eq!(get_route("GET / HTTP/1.1\r\nHost: a\r\n\r\n"), Route::Enter);
    assert_eq!(get_route("GET /cards.js HTTP/1.1\r\n\r\n"), Route::Script);
    assert_eq!(get_route("GET /style.css HTTP/1.1\r\n\r\n"), Route::Style);
    assert_eq!(get_route("GET /index.html HTTP/1.1\r\n\r\n"), Route::NotFound);
    assert_eq!(get_route("GET / HTTP/1.0\r\n\r\n"), Route::Malformed);
    assert_eq!(get_route("hello"), Route::Malformed);
}

#[test]
fn responses_to_routes() {
    assert_eq!(
        get_response(Route::Enter, 2, String::from("<html>")),
        "HTTP/1.1 200 OK\r\nContent-Type: text/html\r\nSet-Cookie: player=2\r\n\r\n<html>"
    );
    assert_eq!(
        get_response(Route::Script, 0, String::from("js")),
        "HTTP/1.1 200 OK\r\nContent-Type: text/javascript\r\n\r\njs"
    );
    assert_eq!(
        get_response(Route::Style, 0, String::from("css")),
        "HTTP/1.1 200 OK\r\nContent-Type: text/css\r\n\r\ncss"
    );
    assert_eq!(
        get_response(Route::NotFound, 0, String::new()),
        "HTTP/1.1 404 STUPID BROWSER\r\n\r\n"
    );
    assert_eq!(
        get_response(Route::Malformed, 0, String::new()),
        "HTTP/1.1 HTTP/1.1 404 STUPID BROWSER\r\n\r\n\r\n\r\n"
    );
}

#[test]
fn decimal_notation() {
    assert_eq!(decimal_string(0), "0");
    assert_eq!(decimal_string(7), "7");
    assert_eq!(decimal_string(1203), "1203");
    assert_eq!(decimal_string(-45), "-45");
    assert_eq!(decimal_string(i32::MIN), "-2147483648");
    assert_eq!(decimal_string(i32::MAX), "2147483647");
}
