//! Reading HTTP messages: the request line, the header fields and the
//! body.

use crate::http::{find, first_occurrence, lemma_first_occurrence_in_range};
use vstd::prelude::*;

verus! {

/// The request methods that are understood.
#[derive(Clone, Copy, Debug, PartialEq, Eq, Structural)]
pub enum Method {
    GET,
    POST,
}

/// The first line of an HTTP message.
#[derive(Debug)]
pub enum Header {
    /// A request: its method and the URI asked for.
    Request(Method, String),
    /// A response: its status code and reason.
    Response(i32, String),
}

/// The pieces of `s` between the occurrences of `sep`, found from left to
/// right.
pub open spec fn split_str(s: Seq<char>, sep: Seq<char>) -> Seq<Seq<char>>
    decreases s.len(),
    when sep.len() > 0
{
    match first_occurrence(s, sep) {
        None => seq![s],
        Some(i) => {
            proof {
                lemma_first_occurrence_in_range(s, sep, s.len() + 1int);
            }
            seq![s.take(i)] + split_str(s.skip(i + sep.len()), sep)
        },
    }
}

/// Splits `s` at every occurrence of `sep`.
pub fn split_str_exec(s: &str, sep: &str) -> (pieces: Vec<String>)
    requires
        sep@.len() > 0,
    ensures
        pieces@.map_values(|p: String| p@) == split_str(s@, sep@),
{
    let sep_len = sep.unicode_len();
    let mut pieces: Vec<String> = Vec::new();
    let mut rest = String::from_str(s);
    loop
        invariant
            sep_len == sep@.len(),
            sep_len > 0,
            pieces@.map_values(|p: String| p@) + split_str(rest@, sep@) == split_str(s@, sep@),
        decreases rest@.len(),
    {
        let ghost before = pieces@.map_values(|p: String| p@);
        match find(rest.as_str(), sep) {
            None => {
                let ghost r = rest@;
                pieces.push(rest);
                assert(pieces@.map_values(|p: String| p@) =~= before.push(r));
                assert(split_str(r, sep@) == seq![r]);
                assert(before + seq![r] =~= before.push(r));
                return pieces;
            },
            Some(i) => {
                proof {
                    lemma_first_occurrence_in_range(rest@, sep@, rest@.len() + 1int);
                }
                let len = rest.as_str().unicode_len();
                let piece = String::from_str(rest.as_str().substring_char(0, i));
                let next = String::from_str(rest.as_str().substring_char(i + sep_len, len));
                let ghost r = rest@;
                assert(piece@ =~= r.take(i as int));
                assert(next@ =~= r.skip(i + sep_len));
                pieces.push(piece);
                assert(pieces@.map_values(|p: String| p@) =~= before.push(r.take(i as int)));
                assert(split_str(r, sep@) == seq![r.take(i as int)] + split_str(next@, sep@));
                assert(before.push(r.take(i as int)) + split_str(next@, sep@) =~= before + (seq![
                    r.take(i as int),
                ] + split_str(next@, sep@)));
                rest = next;
            },
        }
    }
}

/// The header of a request line: it must have exactly three parts
/// separated by single spaces, the first being `GET` or `POST`; the second
/// is the URI.
pub open spec fn parse_header_spec(line: Seq<char>) -> Option<(Method, Seq<char>)> {
    let parts = split_str(line, " "@);
    if parts.len() != 3 {
        None
    } else if parts[0] == "GET"@ {
        Some((Method::GET, parts[1]))
    } else if parts[0] == "POST"@ {
        Some((Method::POST, parts[1]))
    } else {
        None
    }
}

impl Header {
    /// Reads a request line such as `GET /index.html HTTP/1.1`; anything
    /// else is answered with the error `Invalid header`.
    pub fn parse(line: &str) -> (r: Result<Header, String>)
        ensures
            match (r, parse_header_spec(line@)) {
                (Ok(Header::Request(m, uri)), Some((m2, uri2))) => m == m2 && uri@ == uri2,
                (Err(e), None) => e@ == "Invalid header"@,
                _ => false,
            },
    {
        proof {
            reveal_strlit(" ");
        }
        let parts = split_str_exec(line, " ");
        let ghost ps = parts@.map_values(|p: String| p@);
        if parts.len() != 3 {
            return Err(String::from_str("Invalid header"));
        }
        assert(parts@[0]@ == ps[0] && parts@[1]@ == ps[1]);
        let method = if parts[0] == String::from_str("GET") {
            Method::GET
        } else if parts[0] == String::from_str("POST") {
            Method::POST
        } else {
            return Err(String::from_str("Invalid header"));
        };
        let uri = parts[1].clone();
        Ok(Header::Request(method, uri))
    }
}

/// An HTTP message: its first line, its header fields (each name once,
/// with the last value given for it), and its body if it has one.
#[derive(Debug)]
pub struct Message {
    pub header: Header,
    pub fields: Vec<(String, String)>,
    pub body: Option<String>,
}

/// The first line after the header fields, that is the first empty line
/// at or after `i`; `None` when the lines run out first, or when a line
/// before it is not of the form `name: value`.
pub open spec fn fields_end(lines: Seq<Seq<char>>, i: int) -> Option<int>
    decreases lines.len() - i,
{
    if i < 0 || i >= lines.len() {
        None
    } else if lines[i].len() == 0 {
        Some(i)
    } else if split_str(lines[i], ": "@).len() < 2 {
        None
    } else {
        fields_end(lines, i + 1)
    }
}

/// The name and value of a header field line: the text before the first
/// `": "` and the text between it and the next one.
pub open spec fn field_of_line(line: Seq<char>) -> (Seq<char>, Seq<char>) {
    let parts = split_str(line, ": "@);
    (parts[0], parts[1])
}

/// The header fields of the lines from 1 up to `j`, a later field
/// replacing the value of an earlier one of the same name.
pub open spec fn fields_map(lines: Seq<Seq<char>>, j: int) -> Map<Seq<char>, Seq<char>>
    decreases j,
{
    if j <= 1 {
        Map::empty()
    } else {
        fields_map(lines, j - 1).insert(
            field_of_line(lines[j - 1]).0,
            field_of_line(lines[j - 1]).1,
        )
    }
}

/// The pairs `ps` hold exactly the map `m`: each name once, with its value
/// in `m`, and every name of `m`.
pub open spec fn represents(ps: Seq<(String, String)>, m: Map<Seq<char>, Seq<char>>) -> bool {
    &&& forall|i: int, j: int|
        0 <= i < ps.len() && 0 <= j < ps.len() && i != j ==> #[trigger] ps[i].0@ != #[trigger] ps[j].0@
    &&& forall|i: int|
        0 <= i < ps.len() ==> m.contains_key(#[trigger] ps[i].0@) && m[ps[i].0@] == ps[i].1@
    &&& forall|k: Seq<char>| #[trigger] m.contains_key(k) ==> exists|i: int| 0 <= i < ps.len() && #[trigger] ps[i].0@ == k
}

/// Sets the value of the field `name`, adding it when it is new.
fn insert_field(
    fields: &mut Vec<(String, String)>,
    name: String,
    value: String,
    Ghost(m): Ghost<Map<Seq<char>, Seq<char>>>,
)
    requires
        represents(old(fields)@, m),
    ensures
        represents(final(fields)@, m.insert(name@, value@)),
{
    let mut i: usize = 0;
    while i < fields.len()
        invariant
            i <= fields@.len(),
            represents(fields@, m),
            forall|k: int| 0 <= k < i ==> #[trigger] fields@[k].0@ != name@,
        decreases fields@.len() - i,
    {
        if fields[i].0 == name {
            let ghost old_ps = fields@;
            fields.set(i, (name, value));
            let ghost ps = fields@;
            let ghost m2 = m.insert(ps[i as int].0@, ps[i as int].1@);
            assert forall|a: int, b: int|
                0 <= a < ps.len() && 0 <= b < ps.len() && a != b implies #[trigger] ps[a].0@
                != #[trigger] ps[b].0@ by {
                assert(old_ps[a].0@ != old_ps[b].0@);
            }
            assert forall|k: Seq<char>| #[trigger] m2.contains_key(k) implies exists|a: int|
                0 <= a < ps.len() && #[trigger] ps[a].0@ == k by {
                if k != ps[i as int].0@ {
                    let a = choose|a: int| 0 <= a < old_ps.len() && #[trigger] old_ps[a].0@ == k;
                    assert(ps[a].0@ == k);
                }
            }
            return;
        }
        i = i + 1;
    }
    let ghost old_ps = fields@;
    fields.push((name, value));
    let ghost ps = fields@;
    let ghost m2 = m.insert(name@, value@);
    assert forall|k: Seq<char>| #[trigger] m2.contains_key(k) implies exists|a: int|
        0 <= a < ps.len() && #[trigger] ps[a].0@ == k by {
        if k != name@ {
            let a = choose|a: int| 0 <= a < old_ps.len() && #[trigger] old_ps[a].0@ == k;
            assert(ps[a].0@ == k);
        } else {
            assert(ps[old_ps.len() as int].0@ == k);
        }
    }
    assert forall|a: int| 0 <= a < ps.len() implies m2.contains_key(#[trigger] ps[a].0@) && m2[ps[a].0@]
        == ps[a].1@ by {
        if a < old_ps.len() {
            assert(ps[a] == old_ps[a]);
        }
    }
}

/// The lines joined together, without separators.
pub open spec fn concat_lines(lines: Seq<Seq<char>>) -> Seq<char>
    decreases lines.len(),
{
    if lines.len() == 0 {
        Seq::empty()
    } else {
        concat_lines(lines.drop_last()) + lines.last()
    }
}

/// What a message is read as.
pub struct MessageModel {
    pub method: Method,
    pub uri: Seq<char>,
    pub fields: Map<Seq<char>, Seq<char>>,
    pub body: Option<Seq<char>>,
}

/// How a message is read. It is split into lines at each CR LF; the first
/// line must be a request line (else the error `Invalid header`); the
/// next lines, up to an empty one, are header fields `name: value`; what
/// follows the empty line, joined without line breaks, is the body, absent
/// when empty. Running out of lines before the empty one, or a field line
/// without `": "`, gives the error `Invalid message`.
pub open spec fn message_spec(s: Seq<char>) -> Result<MessageModel, Seq<char>> {
    let lines = split_str(s, "\r\n"@);
    match parse_header_spec(lines[0]) {
        None => Err("Invalid header"@),
        Some((method, uri)) => match fields_end(lines, 1) {
            None => Err("Invalid message"@),
            Some(end) => {
                let body = concat_lines(lines.skip(end + 1));
                Ok(
                    MessageModel {
                        method: method,
                        uri: uri,
                        fields: fields_map(lines, end),
                        body: if body.len() == 0 {
                            None
                        } else {
                            Some(body)
                        },
                    },
                )
            },
        },
    }
}

/// The view of an optional string.
pub open spec fn opt_text(s: Option<String>) -> Option<Seq<char>> {
    match s {
        Some(t) => Some(t@),
        None => None,
    }
}

/// `m` is the message described by `mm`.
pub open spec fn message_matches(m: Message, mm: MessageModel) -> bool {
    &&& m.header matches Header::Request(method, uri) && method == mm.method && uri@ == mm.uri
    &&& represents(m.fields@, mm.fields)
    &&& opt_text(m.body) == mm.body
}

impl Message {
    /// An empty message: a response header with status -1 and no reason,
    /// no fields and no body.
    pub fn new() -> (m: Message)
        ensures
            m.header matches Header::Response(code, reason) && code == -1 && reason@.len() == 0,
            m.fields@.len() == 0,
            m.body is None,
    {
        Message { header: Header::Response(-1, String::new()), fields: Vec::new(), body: None }
    }

    /// Reads a whole message; see `message_spec`.
    pub fn parse(s: &str) -> (r: Result<Message, String>)
        ensures
            match (r, message_spec(s@)) {
                (Ok(m), Ok(mm)) => message_matches(m, mm),
                (Err(e), Err(ee)) => e@ == ee,
                _ => false,
            },
    {
        proof {
            reveal_strlit("\r\n");
            reveal_strlit(": ");
        }
        let lines = split_str_exec(s, "\r\n");
        let ghost ls = lines@.map_values(|p: String| p@);
        assert(ls.len() >= 1) by {
            lemma_split_nonempty(s@, "\r\n"@);
        }
        assert(lines@[0]@ == ls[0]);
        let header = match Header::parse(lines[0].as_str()) {
            Ok(h) => h,
            Err(e) => {
                return Err(e);
            },
        };
        let mut fields: Vec<(String, String)> = Vec::new();
        let mut i: usize = 1;
        loop
            invariant
                1 <= i,
                ": "@.len() == 2,
                ls == split_str(s@, "\r\n"@),
                ls.len() >= 1,
                parse_header_spec(ls[0]) is Some,
                ls == lines@.map_values(|p: String| p@),
                fields_end(ls, 1) == fields_end(ls, i as int),
                represents(fields@, fields_map(ls, i as int)),
            ensures
                i < lines@.len(),
                ls[i as int].len() == 0,
            decreases lines@.len() - i,
        {
            if i >= lines.len() {
                return Err(String::from_str("Invalid message"));
            }
            assert(lines@[i as int]@ == ls[i as int]);
            if lines[i].as_str().unicode_len() == 0 {
                break;
            }
            let parts = split_str_exec(lines[i].as_str(), ": ");
            if parts.len() < 2 {
                return Err(String::from_str("Invalid message"));
            }
            let ghost ps = parts@.map_values(|p: String| p@);
            assert(parts@[0]@ == ps[0] && parts@[1]@ == ps[1]);
            insert_field(
                &mut fields,
                parts[0].clone(),
                parts[1].clone(),
                Ghost(fields_map(ls, i as int)),
            );
            assert(fields_map(ls, i + 1) == fields_map(ls, i as int).insert(ps[0], ps[1]));
            i = i + 1;
        }
        let end = i;
        let mut body = String::new();
        let mut j: usize = end + 1;
        while j < lines.len()
            invariant
                end + 1 <= j <= lines@.len(),
                ls == lines@.map_values(|p: String| p@),
                body@ == concat_lines(ls.subrange(end + 1, j as int)),
            decreases lines@.len() - j,
        {
            assert(ls.subrange(end + 1, j + 1).drop_last() =~= ls.subrange(end + 1, j as int));
            assert(lines@[j as int]@ == ls[j as int]);
            body.append(lines[j].as_str());
            j = j + 1;
        }
        assert(ls.subrange(end + 1, ls.len() as int) =~= ls.skip(end + 1));
        assert(fields_end(ls, 1) == Some(end as int));
        let body = if body.as_str().unicode_len() == 0 {
            None
        } else {
            Some(body)
        };
        let m = Message { header: header, fields: fields, body: body };
        Ok(m)
    }
}

/// Splitting always gives at least one piece.
pub proof fn lemma_split_nonempty(s: Seq<char>, sep: Seq<char>)
    requires
        sep.len() > 0,
    ensures
        split_str(s, sep).len() >= 1,
    decreases s.len(),
{
    match first_occurrence(s, sep) {
        None => {},
        Some(i) => {
            lemma_first_occurrence_in_range(s, sep, s.len() + 1int);
            lemma_split_nonempty(s.skip(i + sep.len()), sep);
        },
    }
}

} // verus!
