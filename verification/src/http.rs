//! The texts of a minimal `http://` client: URLs, percent-encoding, requests
//! and answers. Connecting and waiting is the service's business.
use vstd::prelude::*;
use vstd::string::*;
use vstd::utf8::encode_utf8;

use crate::text::{ascii_white_space, before_char, chars_of, is_white, separators_end_the_first_part, starts_with, text_of, up_to, white};

verus! {

/// An `http://` URL: where to connect, and what to ask for.
#[derive(Debug, PartialEq, Eq)]
pub struct Url {
    /// The host, with its port where it has one.
    pub authority: String,
    /// The path and query.
    pub target: String,
}

/// The parts of an `http://` URL behind its scheme, or why there are none.
pub open spec fn url_parts(s: Seq<char>) -> Result<(Seq<char>, Seq<char>), Seq<char>> {
    if !"http://"@.is_prefix_of(s) {
        Err("only http:// URLs are supported"@)
    } else {
        let rest = s.skip("http://"@.len() as int);
        let host = up_to(rest, '/');
        if host.len() == 0 {
            Err("no host"@)
        } else if exists|i: int| 0 <= i < rest.len() && is_white(#[trigger] rest[i]) {
            Err("white space in the URL"@)
        } else if host.len() == rest.len() {
            Ok((host, "/"@))
        } else {
            Ok((host, rest.skip(host.len() as int)))
        }
    }
}

/// What is before a separator is the start of the text.
proof fn up_to_is_prefix(s: Seq<char>, sep: char)
    ensures
        up_to(s, sep).len() <= s.len(),
        up_to(s, sep) == s.take(up_to(s, sep).len() as int),
    decreases s.len(),
{
    if s.len() > 0 && s[0] != sep {
        up_to_is_prefix(s.drop_first(), sep);
        let rest = up_to(s.drop_first(), sep);
        assert(seq![s[0]] + s.drop_first().take(rest.len() as int) =~= s.take(
            rest.len() as int + 1,
        ));
    }
}

impl Url {
    /// Read `http://host[:port][/path]`.
    pub fn parse(url: &str) -> (r: Result<Url, String>)
        ensures
            match r {
                Ok(u) => url_parts(url@) == Ok::<(Seq<char>, Seq<char>), Seq<char>>(
                    (u.authority@, u.target@),
                ),
                Err(e) => url_parts(url@) == Err::<(Seq<char>, Seq<char>), Seq<char>>(e@),
            },
    {
        if !starts_with(url, "http://") {
            return Err("only http:// URLs are supported".to_string());
        }
        let all: Vec<char> = chars_of(url);
        let scheme: usize = "http://".unicode_len();
        let ghost rest = url@.skip(scheme as int);
        assert(all@.subrange(scheme as int, all@.len() as int) =~= rest);
        let tail: String = text_of(&all, scheme, all.len());
        let authority: String = before_char(tail.as_str(), '/');
        proof {
            up_to_is_prefix(rest, '/');
        }
        let host: usize = authority.as_str().unicode_len();
        if host == 0 {
            return Err("no host".to_string());
        }
        let mut i: usize = scheme;
        while i < all.len()
            invariant
                scheme <= i <= all.len(),
                all@ == url@,
                rest == url@.skip(scheme as int),
                "http://"@.is_prefix_of(url@),
                scheme == "http://"@.len(),
                up_to(rest, '/').len() > 0,
                forall|k: int| 0 <= k < i - scheme ==> !is_white(#[trigger] rest[k]),
            decreases all.len() - i,
        {
            assert(rest[i - scheme] == all@[i as int]);
            if white(all[i]) {
                return Err("white space in the URL".to_string());
            }
            i = i + 1;
        }
        if scheme + host == all.len() {
            return Ok(Url { authority, target: "/".to_string() });
        }
        assert(all@.subrange(scheme + host, all@.len() as int) =~= rest.skip(host as int));
        let target: String = text_of(&all, scheme + host, all.len());
        Ok(Url { authority, target })
    }

    /// Where to connect: the port is 80 where none is given.
    pub fn address(&self) -> (r: String)
        ensures
            r@ == (if self.authority@.contains(':') {
                self.authority@
            } else {
                self.authority@ + ":80"@
            }),
    {
        let chars: Vec<char> = chars_of(self.authority.as_str());
        let mut i: usize = 0;
        while i < chars.len()
            invariant
                i <= chars.len(),
                chars@ == self.authority@,
                forall|k: int| 0 <= k < i ==> chars@[k] != ':',
            decreases chars.len() - i,
        {
            if chars[i] == ':' {
                return self.authority.clone();
            }
            i = i + 1;
        }
        let mut out: String = self.authority.clone();
        out.append(":80");
        out
    }

    /// The text of a `GET` for the URL, with the bearer token where there is
    /// one. HTTP/1.0: the answer comes unchunked and ends with the connection.
    pub fn request(&self, bearer: Option<&str>) -> (r: String)
        ensures
            r@ == "GET "@ + self.target@ + " HTTP/1.0\r\nhost: "@ + self.authority@
                + "\r\naccept: application/json\r\n"@ + (match bearer {
                Some(t) => "authorization: Bearer "@ + t@ + "\r\n"@,
                None => Seq::empty(),
            }) + "\r\n"@,
    {
        let mut out: String = "GET ".to_string();
        out.append(self.target.as_str());
        out.append(" HTTP/1.0\r\nhost: ");
        out.append(self.authority.as_str());
        out.append("\r\naccept: application/json\r\n");
        let ghost head = out@;
        match bearer {
            Some(t) => {
                out.append("authorization: Bearer ");
                out.append(t);
                out.append("\r\n");
                assert(out@ =~= head + ("authorization: Bearer "@ + t@ + "\r\n"@));
            },
            None => {
                assert(head + Seq::<char>::empty() =~= head);
            },
        }
        out.append("\r\n");
        out
    }

    /// A path segment that stands for `text`.
    pub fn encode_path_segment(text: &str) -> (r: String)
        ensures
            r@ == percent_encoded(text@),
    {
        encode(text)
    }

    /// A query component that stands for `text`.
    pub fn encode_query_component(text: &str) -> (r: String)
        ensures
            r@ == percent_encoded(text@),
    {
        encode(text)
    }
}

/// A byte that stands for its character in an encoded text: a letter, a
/// digit, `-`, `.`, `_` or `~`.
pub open spec fn is_unreserved(b: u8) -> bool {
    ||| 65 <= b <= 90
    ||| 97 <= b <= 122
    ||| 48 <= b <= 57
    ||| b == 45
    ||| b == 46
    ||| b == 95
    ||| b == 126
}

/// The hexadecimal digit of a number below 16, in upper case.
pub open spec fn hex_digit(n: int) -> char {
    if n < 10 {
        (48 + n) as u8 as char
    } else {
        (55 + n) as u8 as char
    }
}

/// A byte as it stands in an encoded text.
pub open spec fn encoded_byte(b: u8) -> Seq<char> {
    if is_unreserved(b) {
        seq![b as char]
    } else {
        seq!['%', hex_digit(b as int / 16), hex_digit(b as int % 16)]
    }
}

/// The bytes as they stand in an encoded text.
pub open spec fn encoded_bytes(bytes: Seq<u8>) -> Seq<char>
    decreases bytes.len(),
{
    if bytes.len() == 0 {
        Seq::empty()
    } else {
        encoded_bytes(bytes.drop_last()) + encoded_byte(bytes.last())
    }
}

/// The percent-encoded text: every byte of its UTF-8 form that is not
/// unreserved stands as `%` and two hexadecimal digits.
pub open spec fn percent_encoded(s: Seq<char>) -> Seq<char> {
    encoded_bytes(encode_utf8(s))
}

fn hex(n: u8) -> (r: char)
    requires
        n < 16,
    ensures
        r == hex_digit(n as int),
{
    if n < 10 {
        (48 + n) as char
    } else {
        (55 + n) as char
    }
}

fn encode(text: &str) -> (r: String)
    ensures
        r@ == percent_encoded(text@),
{
    let bytes: &[u8] = text.as_bytes();
    let mut out: String = String::new();
    let mut i: usize = 0;
    assert(bytes@.take(0) =~= Seq::<u8>::empty());
    while i < bytes.len()
        invariant
            i <= bytes@.len(),
            bytes@ == encode_utf8(text@),
            out@ == encoded_bytes(bytes@.take(i as int)),
        decreases bytes@.len() - i,
    {
        let b: u8 = bytes[i];
        let ghost done = out@;
        assert(bytes@.take(i as int + 1).drop_last() =~= bytes@.take(i as int));
        if (65 <= b && b <= 90) || (97 <= b && b <= 122) || (48 <= b && b <= 57) || b == 45 || b == 46
            || b == 95 || b == 126 {
            out.push(b as char);
        } else {
            out.push('%');
            out.push(hex(b / 16));
            out.push(hex(b % 16));
        }
        assert(out@ =~= done + encoded_byte(b));
        i = i + 1;
    }
    assert(bytes@.take(bytes@.len() as int) =~= bytes@);
    out
}

/// An encoded text can stand in a path or a query: it holds nothing but
/// letters, digits, `-`, `.`, `_`, `~` and `%`.
pub proof fn encoded_texts_are_safe(bytes: Seq<u8>, i: int)
    requires
        0 <= i < encoded_bytes(bytes).len(),
    ensures
        encoded_bytes(bytes)[i] == '%' || exists|b: u8|
            is_unreserved(b) && encoded_bytes(bytes)[i] == b as char,
    decreases bytes.len(),
{
    let before = encoded_bytes(bytes.drop_last());
    if i < before.len() {
        encoded_texts_are_safe(bytes.drop_last(), i);
    } else {
        let b = bytes.last();
        let c = encoded_bytes(bytes)[i];
        assert(c == encoded_byte(b)[i - before.len()]);
        if is_unreserved(b) {
            assert(c == b as char);
        } else if c != '%' {
            let n = if i - before.len() == 1 {
                b as int / 16
            } else {
                b as int % 16
            };
            let d: u8 = if n < 10 {
                (48 + n) as u8
            } else {
                (55 + n) as u8
            };
            assert(is_unreserved(d) && c == d as char);
        }
    }
}

/// Where the header of an answer ends, from `i` on: at the empty line.
pub open spec fn header_end(raw: Seq<u8>, i: int) -> Option<int>
    decreases raw.len() - i,
{
    if i < 0 || i + 4 > raw.len() {
        None
    } else if raw[i] == 13 && raw[i + 1] == 10 && raw[i + 2] == 13 && raw[i + 3] == 10 {
        Some(i)
    } else {
        header_end(raw, i + 1)
    }
}

/// `b` is the byte of a decimal digit.
pub open spec fn is_digit_byte(b: u8) -> bool {
    48 <= b <= 57
}

/// The status of an answer: three digits behind the version.
pub open spec fn status_of(raw: Seq<u8>) -> Option<u16> {
    if raw.len() >= 12 && raw[8] == 32 && is_digit_byte(raw[9]) && is_digit_byte(raw[10])
        && is_digit_byte(raw[11]) {
        Some(((raw[9] - 48) * 100 + (raw[10] - 48) * 10 + (raw[11] - 48)) as u16)
    } else {
        None
    }
}

/// The status and the body of an answer, or why there are none.
pub open spec fn answer_of(raw: Seq<u8>) -> Result<(u16, Seq<u8>), Seq<char>> {
    match (header_end(raw, 0), status_of(raw)) {
        (None, _) => Err("no header end in the response"@),
        (_, None) => Err("no status line in the response"@),
        (Some(end), Some(status)) => Ok((status, raw.skip(end + 4))),
    }
}

/// Read an answer that ended with its connection.
pub fn read_answer(raw: &Vec<u8>) -> (r: Result<(u16, Vec<u8>), String>)
    ensures
        match r {
            Ok(a) => answer_of(raw@) == Ok::<(u16, Seq<u8>), Seq<char>>((a.0, a.1@)),
            Err(e) => answer_of(raw@) == Err::<(u16, Seq<u8>), Seq<char>>(e@),
        },
{
    let mut end: usize = 0;
    while end < raw.len() && raw.len() - end >= 4 && !(raw[end] == 13 && raw[end + 1] == 10 && raw[end
        + 2] == 13 && raw[end + 3] == 10)
        invariant
            end <= raw.len(),
            header_end(raw@, 0) == header_end(raw@, end as int),
        decreases raw.len() - end,
    {
        end = end + 1;
    }
    if raw.len() - end < 4 {
        return Err("no header end in the response".to_string());
    }
    if raw.len() < 12 || raw[8] != 32 || raw[9] < 48 || raw[9] > 57 || raw[10] < 48 || raw[10] > 57
        || raw[11] < 48 || raw[11] > 57 {
        return Err("no status line in the response".to_string());
    }
    let status: u16 = (raw[9] - 48) as u16 * 100 + (raw[10] - 48) as u16 * 10 + (raw[11] - 48) as u16;
    let start: usize = end + 4;
    let mut body: Vec<u8> = Vec::new();
    let mut i: usize = start;
    while i < raw.len()
        invariant
            start <= i <= raw.len(),
            body@ == raw@.subrange(start as int, i as int),
        decreases raw.len() - i,
    {
        body.push(raw[i]);
        assert(body@ =~= raw@.subrange(start as int, i as int + 1));
        i = i + 1;
    }
    assert(body@ =~= raw@.skip(start as int));
    Ok((status, body))
}

/// A letter, a digit, `-`, `.`, `_` or `~`.
pub open spec fn stands_as_itself(c: char) -> bool {
    ||| 'A' <= c <= 'Z'
    ||| 'a' <= c <= 'z'
    ||| '0' <= c <= '9'
    ||| c == '-'
    ||| c == '.'
    ||| c == '_'
    ||| c == '~'
}

/// The number of a hexadecimal digit in upper case.
pub open spec fn hex_number(c: char) -> int {
    if '0' <= c <= '9' {
        c as int - '0' as int
    } else {
        c as int - 'A' as int + 10
    }
}

/// The bytes that an encoded text stands for: `%` and two hexadecimal digits
/// for the byte with that number, any other character for itself.
pub open spec fn decoded(s: Seq<char>) -> Seq<u8>
    decreases s.len(),
{
    if s.len() == 0 {
        Seq::empty()
    } else if s[0] == '%' && s.len() >= 3 {
        seq![(hex_number(s[1]) * 16 + hex_number(s[2])) as u8] + decoded(s.skip(3))
    } else {
        seq![s[0] as u8] + decoded(s.skip(1))
    }
}

/// Encoding works byte by byte from the front, too.
proof fn encoding_starts_with_the_first(bytes: Seq<u8>)
    requires
        bytes.len() > 0,
    ensures
        encoded_bytes(bytes) == encoded_byte(bytes[0]) + encoded_bytes(bytes.drop_first()),
    decreases bytes.len(),
{
    if bytes.len() == 1 {
        assert(bytes.drop_last() =~= Seq::<u8>::empty());
        assert(bytes.drop_first() =~= Seq::<u8>::empty());
        assert(encoded_bytes(bytes) =~= encoded_byte(bytes[0]));
    } else {
        encoding_starts_with_the_first(bytes.drop_last());
        assert(bytes.drop_last().drop_first() =~= bytes.drop_first().drop_last());
        assert(encoded_bytes(bytes) =~= encoded_byte(bytes[0]) + encoded_bytes(bytes.drop_first()));
    }
}

/// An encoded text stands for the bytes that it was made of.
#[verifier::rlimit(60)]
#[verifier::spinoff_prover]
pub proof fn encoding_decodes_back(bytes: Seq<u8>)
    ensures
        decoded(encoded_bytes(bytes)) == bytes,
    decreases bytes.len(),
{
    let s = encoded_bytes(bytes);
    if bytes.len() > 0 {
        let b = bytes[0];
        let rest = bytes.drop_first();
        encoding_starts_with_the_first(bytes);
        encoding_decodes_back(rest);
        if is_unreserved(b) {
            assert(s[0] == b as char);
            assert(s.skip(1) =~= encoded_bytes(rest));
            assert(decoded(s) == seq![b] + decoded(encoded_bytes(rest)));
        } else {
            assert(s[0] == '%');
            let (h, l) = (b as int / 16, b as int % 16);
            assert(s[1] == hex_digit(h) && s[2] == hex_digit(l));
            assert(hex_number(hex_digit(h)) == h && hex_number(hex_digit(l)) == l);
            assert(s.skip(3) =~= encoded_bytes(rest));
            assert(h * 16 + l == b as int);
            assert(decoded(s) == seq![b] + decoded(encoded_bytes(rest)));
        }
        assert(seq![b] + rest =~= bytes);
    } else {
        assert(bytes =~= Seq::<u8>::empty());
    }
}

/// Different texts are encoded differently.
pub proof fn encoding_tells_texts_apart(a: Seq<char>, b: Seq<char>)
    requires
        percent_encoded(a) == percent_encoded(b),
    ensures
        a == b,
{
    encoding_decodes_back(encode_utf8(a));
    encoding_decodes_back(encode_utf8(b));
    vstd::utf8::encode_utf8_decode_utf8(a);
    vstd::utf8::encode_utf8_decode_utf8(b);
}

/// What an encoded text holds: letters, digits, `-`, `.`, `_` and `~`, and
/// `%` with the two hexadecimal digits behind it.
pub proof fn encoded_texts_hold_no_separator(bytes: Seq<u8>, i: int)
    requires
        0 <= i < encoded_bytes(bytes).len(),
    ensures
        encoded_bytes(bytes)[i] == '%' || stands_as_itself(encoded_bytes(bytes)[i]),
{
    encoded_texts_are_safe(bytes, i);
}

/// Letters, digits, `-`, `.`, `_` and `~` stand as themselves; of every other
/// byte the encoding takes three characters.
pub proof fn plain_characters_stand_as_themselves(b: u8)
    ensures
        stands_as_itself(b as char) ==> encoded_byte(b) == seq![b as char],
        !stands_as_itself(b as char) ==> encoded_byte(b).len() == 3 && encoded_byte(b)[0] == '%',
{
}

/// A URL is read as its parts: what stands between the scheme and the first
/// `/` is the host, and the rest is what to ask for; without a `/` that is
/// the root.
pub proof fn urls_read_as_their_parts(host: Seq<char>, path: Seq<char>)
    requires
        host.len() > 0,
        !host.contains('/'),
        forall|i: int| 0 <= i < host.len() ==> !is_white(#[trigger] host[i]),
        forall|i: int| 0 <= i < path.len() ==> !is_white(#[trigger] path[i]),
    ensures
        url_parts("http://"@ + host + seq!['/'] + path) == Ok::<(Seq<char>, Seq<char>), Seq<char>>(
            (host, seq!['/'] + path),
        ),
        url_parts("http://"@ + host) == Ok::<(Seq<char>, Seq<char>), Seq<char>>((host, "/"@)),
{
    let scheme = "http://"@;
    let rest = host + seq!['/'] + path;
    let s = scheme + host + seq!['/'] + path;
    assert(s.skip(scheme.len() as int) =~= rest);
    assert(scheme.is_prefix_of(s));
    separators_end_the_first_part(host, '/', path);
    ascii_white_space('/');
    assert forall|i: int| 0 <= i < rest.len() implies !is_white(#[trigger] rest[i]) by {
        if i < host.len() {
            assert(rest[i] == host[i]);
        } else if i > host.len() {
            assert(rest[i] == path[i - host.len() - 1]);
        }
    }
    assert(rest.skip(host.len() as int) =~= seq!['/'] + path);
    let t = scheme + host;
    assert(t.skip(scheme.len() as int) =~= host);
    assert(scheme.is_prefix_of(t));
}

/// What is no URL: another scheme, no host, or white space behind the scheme.
pub proof fn other_texts_are_no_urls(s: Seq<char>, rest: Seq<char>)
    ensures
        !"http://"@.is_prefix_of(s) ==> url_parts(s) is Err,
        rest.len() == 0 || rest[0] == '/' ==> url_parts("http://"@ + rest) is Err,
        (exists|i: int| 0 <= i < rest.len() && is_white(#[trigger] rest[i])) ==> url_parts(
            "http://"@ + rest,
        ) is Err,
{
    let t = "http://"@ + rest;
    assert(t.skip("http://"@.len() as int) =~= rest);
}

/// The empty line stands at `i`.
pub open spec fn empty_line_at(raw: Seq<u8>, i: int) -> bool {
    0 <= i && i + 4 <= raw.len() && raw.subrange(i, i + 4) == seq![13u8, 10, 13, 10]
}

/// The header ends at the first empty line, and an answer without one has no
/// header end.
pub proof fn the_header_ends_at_the_first_empty_line(raw: Seq<u8>, i: int)
    requires
        forall|k: int| 0 <= k < i ==> !#[trigger] empty_line_at(raw, k),
        0 <= i,
    ensures
        empty_line_at(raw, i) ==> header_end(raw, 0) == Some(i),
        i + 4 > raw.len() ==> header_end(raw, 0) is None,
{
    header_end_behind(raw, 0, i);
    if empty_line_at(raw, i) {
        line_bytes(raw, i);
    }
}

proof fn line_bytes(raw: Seq<u8>, i: int)
    requires
        0 <= i,
        i + 4 <= raw.len(),
    ensures
        empty_line_at(raw, i) <==> raw[i] == 13 && raw[i + 1] == 10 && raw[i + 2] == 13 && raw[i + 3]
            == 10,
{
    let line = raw.subrange(i, i + 4);
    assert(line[0] == raw[i] && line[1] == raw[i + 1] && line[2] == raw[i + 2] && line[3] == raw[i
        + 3]);
    if raw[i] == 13 && raw[i + 1] == 10 && raw[i + 2] == 13 && raw[i + 3] == 10 {
        assert(line =~= seq![13u8, 10, 13, 10]);
    }
}

proof fn header_end_behind(raw: Seq<u8>, j: int, i: int)
    requires
        0 <= j <= i,
        forall|k: int| 0 <= k < i ==> !#[trigger] empty_line_at(raw, k),
    ensures
        i + 4 > raw.len() ==> header_end(raw, j) is None,
        i + 4 <= raw.len() ==> header_end(raw, j) == header_end(raw, i),
    decreases i - j,
{
    if j < i && j + 4 <= raw.len() {
        assert(!empty_line_at(raw, j));
        line_bytes(raw, j);
        header_end_behind(raw, j + 1, i);
    }
}

/// An answer is read as its parts: the number that the three digits behind
/// the version write, and what stands behind the first empty line.
#[verifier::rlimit(60)]
#[verifier::spinoff_prover]
pub proof fn answers_read_as_their_parts(
    version: Seq<u8>,
    hundreds: u8,
    tens: u8,
    ones: u8,
    head: Seq<u8>,
    body: Seq<u8>,
)
    requires
        version.len() == 8,
        hundreds <= 9,
        tens <= 9,
        ones <= 9,
        ({
            let start = version + seq![32u8, (48 + hundreds) as u8, (48 + tens) as u8, (48 + ones) as u8]
                + head;
            let raw = start + seq![13u8, 10, 13, 10] + body;
            forall|k: int| 0 <= k < start.len() ==> !#[trigger] empty_line_at(raw, k)
        }),
    ensures
        answer_of(
            version + seq![32u8, (48 + hundreds) as u8, (48 + tens) as u8, (48 + ones) as u8] + head
                + seq![13u8, 10, 13, 10] + body,
        ) == Ok::<(u16, Seq<u8>), Seq<char>>(
            ((100 * hundreds + 10 * tens + ones) as u16, body),
        ),
{
    let start = version + seq![32u8, (48 + hundreds) as u8, (48 + tens) as u8, (48 + ones) as u8]
        + head;
    let raw = start + seq![13u8, 10, 13, 10] + body;
    let i = start.len() as int;
    assert(raw.subrange(i, i + 4) =~= seq![13u8, 10, 13, 10]);
    the_header_ends_at_the_first_empty_line(raw, i);
    assert(raw.skip(i + 4) =~= body);
    assert(raw[8] == 32 && raw[9] == 48 + hundreds && raw[10] == 48 + tens && raw[11] == 48 + ones);
}

/// An answer without an empty line, or without a status, is no answer.
pub proof fn broken_answers_are_refused(raw: Seq<u8>)
    ensures
        (forall|k: int| 0 <= k ==> !#[trigger] empty_line_at(raw, k)) ==> answer_of(raw) is Err,
        raw.len() < 12 || raw[8] != 32 || (exists|k: int|
            9 <= k < 12 && !(48 <= #[trigger] raw[k] <= 57)) ==> answer_of(raw) is Err,
{
    if forall|k: int| 0 <= k ==> !#[trigger] empty_line_at(raw, k) {
        the_header_ends_at_the_first_empty_line(raw, raw.len() as int);
    }
}

} // verus!
