//! Small pieces of a hand-written HTTP responder: building a response,
//! finding the resource a GET request asks for, and answering it.

use vstd::prelude::*;

verus! {

/// The header lines of a response, each followed by CR LF.
pub open spec fn header_block(headers: Seq<Seq<char>>) -> Seq<char>
    decreases headers.len(),
{
    if headers.len() == 0 {
        Seq::empty()
    } else {
        header_block(headers.drop_last()) + headers.last() + "\r\n"@
    }
}

/// A response with status line `head`, the header lines `headers` and the
/// body `contents`.
pub open spec fn http_response(head: Seq<char>, headers: Seq<Seq<char>>, contents: Seq<char>) -> Seq<
    char,
> {
    "HTTP/1.1 "@ + head + "\r\n"@ + header_block(headers) + "\r\n"@ + contents
}

/// Builds a response from its status, its header lines and its body.
#[allow(non_snake_case)]
pub fn make_HTTP_respone(head: String, header: Vec<String>, contents: String) -> (response: String)
    ensures
        response@ == http_response(head@, header@.map_values(|h: String| h@), contents@),
{
    let ghost hs = header@.map_values(|h: String| h@);
    let mut accumulated = String::new();
    let mut i: usize = 0;
    while i < header.len()
        invariant
            i <= header.len(),
            hs == header@.map_values(|h: String| h@),
            accumulated@ == header_block(hs.take(i as int)),
        decreases header.len() - i,
    {
        assert(hs.take(i + 1).drop_last() =~= hs.take(i as int));
        accumulated.append(header[i].as_str());
        accumulated.append("\r\n");
        i = i + 1;
    }
    assert(hs.take(header.len() as int) =~= hs);
    let mut response = String::from_str("HTTP/1.1 ");
    response.append(head.as_str());
    response.append("\r\n");
    response.append(accumulated.as_str());
    response.append("\r\n");
    response.append(contents.as_str());
    response
}

/// `needle` occurs in `hay` starting at position `i`.
pub open spec fn occurs_at(hay: Seq<char>, needle: Seq<char>, i: int) -> bool {
    0 <= i && i + needle.len() <= hay.len() && hay.subrange(i, i + needle.len()) == needle
}

/// The first position before `k` at which `needle` occurs in `hay`.
pub open spec fn first_occurrence_before(hay: Seq<char>, needle: Seq<char>, k: int) -> Option<int>
    decreases k,
{
    if k <= 0 {
        None
    } else {
        match first_occurrence_before(hay, needle, k - 1) {
            Some(i) => Some(i),
            None => if occurs_at(hay, needle, k - 1) {
                Some(k - 1)
            } else {
                None
            },
        }
    }
}

/// The first position at which `needle` occurs in `hay`.
pub open spec fn first_occurrence(hay: Seq<char>, needle: Seq<char>) -> Option<int> {
    first_occurrence_before(hay, needle, hay.len() + 1int)
}

/// Whether `needle` occurs in `hay` at position `i`.
fn matches_at(hay: &str, hay_len: usize, needle: &str, i: usize) -> (b: bool)
    requires
        hay_len == hay@.len(),
        i <= hay_len,
    ensures
        b == occurs_at(hay@, needle@, i as int),
{
    let n = needle.unicode_len();
    if n > hay_len - i {
        return false;
    }
    let mut j: usize = 0;
    while j < n
        invariant
            j <= n,
            n == needle@.len(),
            i + n <= hay_len,
            hay_len == hay@.len(),
            forall|m: int| 0 <= m < j ==> hay@[i + m] == needle@[m],
        decreases n - j,
    {
        if hay.get_char(i + j) != needle.get_char(j) {
            assert(hay@.subrange(i as int, i + n)[j as int] != needle@[j as int]);
            return false;
        }
        j = j + 1;
    }
    assert(hay@.subrange(i as int, i + n) =~= needle@);
    true
}

/// The position of the first occurrence of `needle` in `hay`, counted in
/// characters.
pub fn find(hay: &str, needle: &str) -> (r: Option<usize>)
    ensures
        match r {
            Some(i) => first_occurrence(hay@, needle@) == Some(i as int),
            None => first_occurrence(hay@, needle@) is None,
        },
{
    let len = hay.unicode_len();
    let mut i: usize = 0;
    while i <= len
        invariant
            i <= len + 1,
            len == hay@.len(),
            first_occurrence_before(hay@, needle@, i as int) is None,
        decreases len + 1 - i,
    {
        if matches_at(hay, len, needle, i) {
            assert(first_occurrence_before(hay@, needle@, i + 1) == Some(i as int));
            proof {
                lemma_first_occurrence_from_prefix(hay@, needle@, i as int + 1, hay@.len() + 1int);
            }
            return Some(i);
        }
        if i == len {
            return None;
        }
        i = i + 1;
    }
    None
}

proof fn lemma_first_occurrence_from_prefix(hay: Seq<char>, needle: Seq<char>, k: int, m: int)
    requires
        0 <= k <= m,
        first_occurrence_before(hay, needle, k) is Some,
    ensures
        first_occurrence_before(hay, needle, m) == first_occurrence_before(hay, needle, k),
    decreases m - k,
{
    if m > k {
        lemma_first_occurrence_from_prefix(hay, needle, k, m - 1);
    }
}

/// The resource a GET request asks for.
#[derive(Clone, Copy, Debug, PartialEq, Eq, Structural)]
pub enum Route {
    /// The request has no path or no HTTP version.
    Malformed,
    /// The entry page, `enter.html`.
    Enter,
    /// The script, `cards.js`.
    Script,
    /// The style sheet, `style.css`.
    Style,
    /// Anything else.
    NotFound,
}

/// The path a request asks for: what lies between the first `/` and the
/// first ` HTTP/1.1`.
pub open spec fn requested_path(request: Seq<char>) -> Option<Seq<char>> {
    match (first_occurrence(request, "/"@), first_occurrence(request, " HTTP/1.1"@)) {
        (Some(start), Some(end)) => Some(request.subrange(start + 1, end)),
        _ => None,
    }
}

/// The resource a request for `path` is answered with.
pub open spec fn route_of_path(path: Seq<char>) -> Route {
    if path == Seq::<char>::empty() {
        Route::Enter
    } else if path == "cards.js"@ {
        Route::Script
    } else if path == "style.css"@ {
        Route::Style
    } else {
        Route::NotFound
    }
}

/// The requests whose path cannot be cut out: the first `/` stands after
/// the first ` HTTP/1.1`.
pub open spec fn path_out_of_order(request: Seq<char>) -> bool {
    match (first_occurrence(request, "/"@), first_occurrence(request, " HTTP/1.1"@)) {
        (Some(start), Some(end)) => start + 1 > end,
        _ => false,
    }
}

/// Finds the resource a GET request asks for.
pub fn get_route(request: &str) -> (route: Route)
    requires
        !path_out_of_order(request@),
    ensures
        route == match requested_path(request@) {
            None => Route::Malformed,
            Some(path) => route_of_path(path),
        },
{
    let start = find(request, "/");
    let end = find(request, " HTTP/1.1");
    match (start, end) {
        (Some(s), Some(e)) => {
            assert(e <= request@.len()) by {
                reveal_strlit(" HTTP/1.1");
                lemma_first_occurrence_in_range(request@, " HTTP/1.1"@, request@.len() + 1int);
            }
            let requested = request.substring_char(s + 1, e);
            let path = String::from_str(requested);
            if path.as_str().unicode_len() == 0 {
                assert(path@ =~= Seq::<char>::empty());
                Route::Enter
            } else if path == String::from_str("cards.js") {
                Route::Script
            } else if path == String::from_str("style.css") {
                Route::Style
            } else {
                Route::NotFound
            }
        },
        _ => Route::Malformed,
    }
}

/// The first occurrence found is an occurrence.
pub proof fn lemma_first_occurrence_in_range(hay: Seq<char>, needle: Seq<char>, k: int)
    ensures
        first_occurrence_before(hay, needle, k) matches Some(i) ==> occurs_at(hay, needle, i),
    decreases k,
{
    if k > 0 {
        lemma_first_occurrence_in_range(hay, needle, k - 1);
    }
}

/// The character of a decimal digit.
pub open spec fn digit_char(d: int) -> char {
    if d == 0 {
        '0'
    } else if d == 1 {
        '1'
    } else if d == 2 {
        '2'
    } else if d == 3 {
        '3'
    } else if d == 4 {
        '4'
    } else if d == 5 {
        '5'
    } else if d == 6 {
        '6'
    } else if d == 7 {
        '7'
    } else if d == 8 {
        '8'
    } else {
        '9'
    }
}

/// The decimal digits of `n`, without leading zeros.
pub open spec fn nat_decimal(n: nat) -> Seq<char>
    decreases n,
{
    if n < 10 {
        seq![digit_char(n as int)]
    } else {
        nat_decimal(n / 10) + seq![digit_char((n % 10) as int)]
    }
}

/// The decimal notation of `n`, with a minus sign when it is negative.
pub open spec fn int_decimal(n: int) -> Seq<char> {
    if n < 0 {
        seq!['-'] + nat_decimal((-n) as nat)
    } else {
        nat_decimal(n as nat)
    }
}

fn digit_str(d: u64) -> (s: &'static str)
    requires
        d < 10,
    ensures
        s@ == seq![digit_char(d as int)],
{
    if d == 0 {
        proof { reveal_strlit("0"); }
        "0"
    } else if d == 1 {
        proof { reveal_strlit("1"); }
        "1"
    } else if d == 2 {
        proof { reveal_strlit("2"); }
        "2"
    } else if d == 3 {
        proof { reveal_strlit("3"); }
        "3"
    } else if d == 4 {
        proof { reveal_strlit("4"); }
        "4"
    } else if d == 5 {
        proof { reveal_strlit("5"); }
        "5"
    } else if d == 6 {
        proof { reveal_strlit("6"); }
        "6"
    } else if d == 7 {
        proof { reveal_strlit("7"); }
        "7"
    } else if d == 8 {
        proof { reveal_strlit("8"); }
        "8"
    } else {
        proof { reveal_strlit("9"); }
        "9"
    }
}

fn nat_to_decimal(n: u64) -> (s: String)
    ensures
        s@ == nat_decimal(n as nat),
    decreases n,
{
    if n < 10 {
        String::from_str(digit_str(n))
    } else {
        let mut s = nat_to_decimal(n / 10);
        s.append(digit_str(n % 10));
        s
    }
}

/// The decimal notation of `n`.
pub fn decimal_string(n: i32) -> (s: String)
    ensures
        s@ == int_decimal(n as int),
{
    if n < 0 {
        let m: i64 = -(n as i64);
        let mut s = String::from_str("-");
        proof { reveal_strlit("-"); }
        s.append(nat_to_decimal(m as u64).as_str());
        s
    } else {
        nat_to_decimal(n as u64)
    }
}

/// The answer to a request that is not understood or asks for an unknown
/// resource.
pub open spec fn not_found_status() -> Seq<char> {
    "HTTP/1.1 404 STUPID BROWSER\r\n\r\n"@
}

/// The answer to a GET request for `route`, where `contents` is the file
/// that the route serves and `players` is written into the cookie of the
/// entry page.
pub open spec fn get_response_spec(route: Route, players: i32, contents: Seq<char>) -> Seq<char> {
    match route {
        Route::Malformed => http_response(not_found_status(), Seq::empty(), Seq::empty()),
        Route::Enter => http_response(
            "200 OK"@,
            seq!["Content-Type: text/html"@, "Set-Cookie: player="@ + int_decimal(players as int)],
            contents,
        ),
        Route::Script => http_response("200 OK"@, seq!["Content-Type: text/javascript"@], contents),
        Route::Style => http_response("200 OK"@, seq!["Content-Type: text/css"@], contents),
        Route::NotFound => not_found_status(),
    }
}

/// Answers a GET request for `route`; `contents` is the file the route
/// serves (unused for the others), `players` goes into the entry page's
/// cookie.
pub fn get_response(route: Route, players: i32, contents: String) -> (response: String)
    ensures
        response@ == get_response_spec(route, players, contents@),
{
    match route {
        Route::Malformed => {
            let headers: Vec<String> = Vec::new();
            let ghost hs = headers@;
            let r = make_HTTP_respone(
                String::from_str("HTTP/1.1 404 STUPID BROWSER\r\n\r\n"),
                headers,
                String::new(),
            );
            assert(hs.map_values(|h: String| h@) =~= Seq::<Seq<char>>::empty());
            r
        },
        Route::Enter => {
            let mut cookie = String::from_str("Set-Cookie: player=");
            cookie.append(decimal_string(players).as_str());
            let headers = vec![String::from_str("Content-Type: text/html"), cookie];
            let ghost hs = headers@;
            let r = make_HTTP_respone(String::from_str("200 OK"), headers, contents);
            assert(hs.map_values(|h: String| h@) =~= seq![
                "Content-Type: text/html"@,
                "Set-Cookie: player="@ + int_decimal(players as int),
            ]);
            r
        },
        Route::Script => {
            let headers = vec![String::from_str("Content-Type: text/javascript")];
            let ghost hs = headers@;
            let r = make_HTTP_respone(String::from_str("200 OK"), headers, contents);
            assert(hs.map_values(|h: String| h@) =~= seq!["Content-Type: text/javascript"@]);
            r
        },
        Route::Style => {
            let headers = vec![String::from_str("Content-Type: text/css")];
            let ghost hs = headers@;
            let r = make_HTTP_respone(String::from_str("200 OK"), headers, contents);
            assert(hs.map_values(|h: String| h@) =~= seq!["Content-Type: text/css"@]);
            r
        },
        Route::NotFound => String::from_str("HTTP/1.1 404 STUPID BROWSER\r\n\r\n"),
    }
}

} // verus!
