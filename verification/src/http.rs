//! The little of HTTP and JSON that the interface needs.

use vstd::prelude::*;
use vstd::string::StringExecFns;
#[allow(unused_imports)]
use vstd::utf8::{decode_utf8, encode_utf8, valid_utf8};

use crate::text::{
    chars_of, find_char, parse_number, push_decimal, push_hex, same, same_ignoring_case,
    split_once, text_between, trim,
};
#[allow(unused_imports)]
use crate::text::{
    decimal, first_at, halves, hex, is_space, lemma_first_at, lemma_first_at_skip, lowered,
    number, trimmed, trimmed_start,
};

verus! {

/// Longest request line + headers we will buffer before giving up.
pub const MAX_HEADER: usize = 16384;

/// What `String::from_utf8_lossy` makes of bytes that are not UTF-8: the text
/// they hold, with a replacement character for each part that holds none.
pub uninterp spec fn repaired_text(bytes: Seq<u8>) -> Seq<char>;

/// The text of `bytes`, if need be repaired.
pub open spec fn lossy(bytes: Seq<u8>) -> Seq<char> {
    if valid_utf8(bytes) {
        decode_utf8(bytes)
    } else {
        repaired_text(bytes)
    }
}

/// `String::from_utf8_lossy`: bytes that are UTF-8 are decoded as they are; of
/// others the result is named and nothing more is claimed.
#[verifier::external_body]
fn from_utf8_lossy(bytes: &[u8]) -> (s: String)
    ensures
        valid_utf8(bytes@) ==> s@ == decode_utf8(bytes@),
        !valid_utf8(bytes@) ==> s@ == repaired_text(bytes@),
{
    String::from_utf8_lossy(bytes).into_owned()
}

/// The text of `bytes`, if need be repaired.
pub fn lossy_text(bytes: &[u8]) -> (s: String)
    ensures
        s@ == lossy(bytes@),
{
    from_utf8_lossy(bytes)
}

/// Text that goes through bytes comes back.
pub proof fn law_text_survives(s: Seq<char>)
    ensures
        lossy(encode_utf8(s)) == s,
{
    vstd::utf8::encode_utf8_valid_utf8(s);
    vstd::utf8::encode_utf8_decode_utf8(s);
}

// ------------------------------------------------------------------ requests

/// What is known of a request head that is still being read.
#[derive(Clone, Copy, Debug, PartialEq, Eq, Structural)]
pub enum HeadStatus {
    /// The blank line has come.
    Complete,
    TooLarge,
    More,
}

/// The blank line that ends a request head has come.
pub open spec fn ends_blank(head: Seq<u8>) -> bool {
    let n = head.len() as int;
    ||| n >= 4 && head[n - 4] == 13 && head[n - 3] == 10 && head[n - 2] == 13 && head[n - 1] == 10
    ||| n >= 2 && head[n - 2] == 10 && head[n - 1] == 10
}

/// Whether the head read so far is complete, has grown too large, or goes on.
pub fn head_status(head: &Vec<u8>) -> (r: HeadStatus)
    ensures
        r == (if head@.len() > MAX_HEADER {
            HeadStatus::TooLarge
        } else if ends_blank(head@) {
            HeadStatus::Complete
        } else {
            HeadStatus::More
        }),
{
    let n: usize = head.len();
    if n > MAX_HEADER {
        return HeadStatus::TooLarge;
    }
    if n >= 4 && head[n - 4] == 13 && head[n - 3] == 10 && head[n - 2] == 13 && head[n - 1] == 10 {
        return HeadStatus::Complete;
    }
    if n >= 2 && head[n - 2] == 10 && head[n - 1] == 10 {
        return HeadStatus::Complete;
    }
    HeadStatus::More
}

/// A request without its body, whose length is `len`.
#[derive(Debug)]
pub struct Head {
    pub method: String,
    pub path: String,
    pub query: String,
    pub len: usize,
}

/// A request head, as contracts see it.
pub struct HeadView {
    pub method: Seq<char>,
    pub path: Seq<char>,
    pub query: Seq<char>,
    pub len: nat,
}

impl View for Head {
    type V = HeadView;

    open spec fn view(&self) -> HeadView {
        HeadView {
            method: self.method@,
            path: self.path@,
            query: self.query@,
            len: self.len as nat,
        }
    }
}

/// The first line of `s`, without its end, and what follows it.
pub open spec fn next_line(s: Seq<char>) -> Option<(Seq<char>, Seq<char>)> {
    let i = first_at(s, '\n', 0);
    if s.len() == 0 {
        None
    } else if i >= s.len() {
        Some((s, Seq::empty()))
    } else if i > 0 && s[i - 1] == '\r' {
        Some((s.take(i - 1), s.skip(i + 1)))
    } else {
        Some((s.take(i), s.skip(i + 1)))
    }
}

/// Where the first white space of `s` stands from `i` on; its length if there
/// is none.
pub open spec fn word_end(s: Seq<char>, i: int) -> int
    decreases s.len() - i,
{
    if i >= s.len() {
        s.len() as int
    } else if is_space(s[i]) {
        i
    } else {
        word_end(s, i + 1)
    }
}

/// The first word of `s` and what follows it.
pub open spec fn next_word(s: Seq<char>) -> Option<(Seq<char>, Seq<char>)> {
    let t = trimmed_start(s);
    if t.len() == 0 {
        None
    } else {
        Some((t.take(word_end(t, 0)), t.skip(word_end(t, 0))))
    }
}

/// The length that the header lines `s` give last, `len` if they give none.
/// `None` if one of them is no number.
pub open spec fn content_length(s: Seq<char>, len: nat) -> Option<nat>
    decreases s.len(),
{
    match next_line(s) {
        None => Some(len),
        Some((line, rest)) => {
            proof {
                lemma_first_at(s, '\n', 0);
            }
            match halves(line, ':') {
                Some((k, v)) if lowered(trimmed(k)) == lowered("content-length"@) => match number(
                    trimmed(v),
                    usize::MAX as nat,
                ) {
                    Some(n) => content_length(rest, n),
                    None => None,
                },
                _ => content_length(rest, len),
            }
        },
    }
}

/// The message for a body that is longer than the limit.
pub open spec fn too_large_text(len: nat, max_body: nat) -> Seq<char> {
    "upload too large ("@ + decimal(len) + " bytes, limit "@ + decimal(max_body)
        + "); raise it with --max-size"@
}

/// The request that the head `text` makes, or why it is refused.
pub open spec fn parsed_head(text: Seq<char>, max_body: nat) -> Result<HeadView, Seq<char>> {
    match next_line(text) {
        None => Err("empty request"@),
        Some((start, rest)) => match next_word(start) {
            None => Err("malformed request line"@),
            Some((method, after)) => match next_word(after) {
                None => Err("malformed request line"@),
                Some((target, _)) => {
                    let (path, query) = match halves(target, '?') {
                        Some((p, q)) => (p, q),
                        None => (target, ""@),
                    };
                    match content_length(rest, 0) {
                        None => Err("malformed Content-Length"@),
                        Some(len) => if len > max_body {
                            Err(too_large_text(len, max_body))
                        } else {
                            Ok(HeadView { method, path, query, len })
                        },
                    }
                },
            },
        },
    }
}

/// Where the line that starts at `from` ends, and where the next one starts.
fn line_span(v: &Vec<char>, from: usize) -> (r: (usize, usize))
    requires
        from < v@.len(),
    ensures
        from <= r.0 <= r.1 <= v@.len(),
        from < r.1,
        next_line(v@.skip(from as int)) == Some(
            (v@.subrange(from as int, r.0 as int), v@.skip(r.1 as int)),
        ),
{
    let i = find_char(v, '\n', from);
    let ghost s = v@.skip(from as int);
    proof {
        lemma_first_at_skip(v@, '\n', from as int, 0);
        assert(first_at(s, '\n', 0) == i - from);
    }
    if i == v.len() {
        assert(v@.subrange(from as int, i as int) =~= s);
        assert(v@.skip(i as int) =~= Seq::empty());
        (i, i)
    } else {
        assert(v@.skip(i + 1) =~= s.skip(i - from + 1));
        if i > from && v[i - 1] == '\r' {
            assert(v@.subrange(from as int, i - 1) =~= s.take(i - from - 1));
            (i - 1, i + 1)
        } else {
            assert(v@.subrange(from as int, i as int) =~= s.take(i - from));
            (i, i + 1)
        }
    }
}

/// The first word of `s` and what follows it.
pub fn split_word(s: &str) -> (r: Option<(String, String)>)
    ensures
        match r {
            Some((a, b)) => next_word(s@) == Some((a@, b@)),
            None => next_word(s@) is None,
        },
{
    let v = chars_of(s);
    let mut a: usize = 0;
    assert(v@.skip(0) =~= s@);
    while a < v.len() && crate::text::is_white_space(v[a])
        invariant
            a <= v@.len(),
            trimmed_start(v@.skip(a as int)) == trimmed_start(s@),
        decreases v@.len() - a,
    {
        assert(v@.skip(a as int).skip(1) =~= v@.skip(a + 1));
        a = a + 1;
    }
    let ghost t = v@.skip(a as int);
    assert(t == trimmed_start(s@));
    if a == v.len() {
        return None;
    }
    let mut b: usize = a;
    while b < v.len() && !crate::text::is_white_space(v[b])
        invariant
            a <= b <= v@.len(),
            t == v@.skip(a as int),
            word_end(t, b - a) == word_end(t, 0),
        decreases v@.len() - b,
    {
        assert(t[b - a] == v@[b as int]);
        b = b + 1;
    }
    assert(b < v@.len() ==> t[b - a] == v@[b as int]);
    assert(v@.subrange(a as int, b as int) =~= t.take(b - a));
    assert(v@.subrange(b as int, v@.len() as int) =~= t.skip(b - a));
    Some((text_between(&v, a, b), text_between(&v, b, v.len())))
}

/// The request that the head `text` makes.
pub fn parse_head(text: &str, max_body: usize) -> (r: Result<Head, String>)
    ensures
        match r {
            Ok(h) => parsed_head(text@, max_body as nat) == Ok::<HeadView, Seq<char>>(h@),
            Err(e) => parsed_head(text@, max_body as nat) == Err::<HeadView, Seq<char>>(e@),
        },
{
    let v = chars_of(text);
    if v.len() == 0 {
        return Err("empty request".to_string());
    }
    assert(v@.skip(0) =~= text@);
    let (end, next) = line_span(&v, 0);
    let start = text_between(&v, 0, end);
    let (method, after) = match split_word(start.as_str()) {
        Some(p) => p,
        None => {
            return Err("malformed request line".to_string());
        },
    };
    let (target, _) = match split_word(after.as_str()) {
        Some(p) => p,
        None => {
            return Err("malformed request line".to_string());
        },
    };
    let (path, query) = match split_once(target.as_str(), '?') {
        Some(p) => p,
        None => (target, "".to_string()),
    };
    let mut len: usize = 0;
    let mut pos: usize = next;
    let ghost rest = v@.skip(next as int);
    while pos < v.len()
        invariant
            pos <= v@.len(),
            content_length(v@.skip(pos as int), len as nat) == content_length(rest, 0),
            content_length(rest, 0) is None ==> parsed_head(text@, max_body as nat) == Err::<
                HeadView,
                Seq<char>,
            >("malformed Content-Length"@),
        decreases v@.len() - pos,
    {
        let (end, next) = line_span(&v, pos);
        let line = text_between(&v, pos, end);
        match split_once(line.as_str(), ':') {
            Some((k, val)) => if same_ignoring_case(trim(k.as_str()).as_str(), "content-length") {
                match parse_number(trim(val.as_str()).as_str(), usize::MAX as u64) {
                    Some(n) => {
                        len = n as usize;
                    },
                    None => {
                        return Err("malformed Content-Length".to_string());
                    },
                }
            },
            None => {},
        }
        pos = next;
    }
    assert(v@.skip(pos as int) =~= Seq::empty());
    if len > max_body {
        let mut e = "upload too large (".to_string();
        push_decimal(&mut e, len as u64);
        e.append(" bytes, limit ");
        push_decimal(&mut e, max_body as u64);
        e.append("); raise it with --max-size");
        return Err(e);
    }
    Ok(Head { method, path, query, len })
}

/// The request that the bytes of a head make, or why it is refused.
pub open spec fn requested(head: Seq<u8>, max_body: nat) -> Result<HeadView, Seq<char>> {
    if head.len() > MAX_HEADER {
        Err("request headers too large"@)
    } else {
        parsed_head(lossy(head), max_body)
    }
}

/// The request that the bytes of a head make.
pub fn read_request(head: &Vec<u8>, max_body: usize) -> (r: Result<Head, String>)
    ensures
        match r {
            Ok(h) => requested(head@, max_body as nat) == Ok::<HeadView, Seq<char>>(h@),
            Err(e) => requested(head@, max_body as nat) == Err::<HeadView, Seq<char>>(e@),
        },
{
    if head.len() > MAX_HEADER {
        return Err("request headers too large".to_string());
    }
    let text = lossy_text(head.as_slice());
    parse_head(text.as_str(), max_body)
}

/// A request that is accepted never has a head or a body over its limit.
pub proof fn law_request_is_limited(head: Seq<u8>, max_body: nat)
    ensures
        requested(head, max_body) matches Ok(h) ==> head.len() <= MAX_HEADER && h.len <= max_body,
{
}

// -------------------------------------------------------------------- JSON

/// `c` inside a JSON literal.
pub open spec fn json_escape(c: char) -> Seq<char> {
    if c == '"' {
        seq!['\\', '"']
    } else if c == '\\' {
        seq!['\\', '\\']
    } else if c == '\n' {
        seq!['\\', 'n']
    } else if c == '\r' {
        seq!['\\', 'r']
    } else if c == '\t' {
        seq!['\\', 't']
    } else if (c as u32) < 0x20 {
        seq!['\\', 'u'] + hex(c as u32 as nat, 4)
    } else {
        seq![c]
    }
}

/// `s` inside a JSON literal.
pub open spec fn json_escaped(s: Seq<char>) -> Seq<char>
    decreases s.len(),
{
    if s.len() == 0 {
        Seq::empty()
    } else {
        json_escape(s[0]) + json_escaped(s.skip(1))
    }
}

/// `s` as a JSON literal.
pub open spec fn json_quoted(s: Seq<char>) -> Seq<char> {
    seq!['"'] + json_escaped(s) + seq!['"']
}

/// Quote a string as a JSON literal. Control characters are escaped so error
/// text coming from a file name can never break out of the document.
pub fn json_string(s: &str) -> (r: String)
    ensures
        r@ == json_quoted(s@),
{
    let v = chars_of(s);
    let mut out = String::new();
    out.push('"');
    let mut i: usize = 0;
    assert(v@.skip(0) =~= s@);
    assert(out@ =~= seq!['"']);
    while i < v.len()
        invariant
            i <= v@.len(),
            out@ + json_escaped(v@.skip(i as int)) == seq!['"'] + json_escaped(s@),
        decreases v@.len() - i,
    {
        let c: char = v[i];
        let ghost before = out@;
        if c == '"' {
            out.push('\\');
            out.push('"');
        } else if c == '\\' {
            out.push('\\');
            out.push('\\');
        } else if c == '\n' {
            out.push('\\');
            out.push('n');
        } else if c == '\r' {
            out.push('\\');
            out.push('r');
        } else if c == '\t' {
            out.push('\\');
            out.push('t');
        } else if (c as u32) < 0x20 {
            out.push('\\');
            out.push('u');
            push_hex(&mut out, c as u32, 4);
        } else {
            out.push(c);
        }
        proof {
            assert(out@ =~= before + json_escape(c));
            let rest = v@.skip(i as int);
            assert(rest[0] == c);
            assert(rest.skip(1) =~= v@.skip(i + 1));
            assert(before + json_escaped(rest) =~= out@ + json_escaped(v@.skip(i + 1)));
        }
        i = i + 1;
    }
    assert(v@.skip(i as int) =~= Seq::empty());
    assert(out@ =~= seq!['"'] + json_escaped(s@));
    out.push('"');
    assert(out@ =~= json_quoted(s@));
    out
}

/// The value of a hexadecimal digit of a JSON escape; 16 if it is none.
pub open spec fn json_hex(c: char) -> nat {
    if '0' <= c <= '9' {
        (c as u32 - 48) as nat
    } else if 'a' <= c <= 'f' {
        (c as u32 - 87) as nat
    } else if 'A' <= c <= 'F' {
        (c as u32 - 55) as nat
    } else {
        16
    }
}

/// What a JSON reader finds in `t` from `i`, inside a literal, up to the quote
/// that closes it: the text, and the place after that quote.
pub open spec fn json_read(t: Seq<char>, i: int) -> Option<(Seq<char>, int)>
    decreases t.len() - i,
{
    if i < 0 || i >= t.len() || (t[i] as u32) < 0x20 {
        None
    } else if t[i] == '"' {
        Some((Seq::empty(), i + 1))
    } else {
        let (c, next): (Option<char>, int) = if t[i] != '\\' {
            (Some(t[i]), i + 1)
        } else if i + 1 >= t.len() {
            (None, i + 1)
        } else if t[i + 1] == '"' || t[i + 1] == '\\' || t[i + 1] == '/' {
            (Some(t[i + 1]), i + 2)
        } else if t[i + 1] == 'n' {
            (Some('\n'), i + 2)
        } else if t[i + 1] == 'r' {
            (Some('\r'), i + 2)
        } else if t[i + 1] == 't' {
            (Some('\t'), i + 2)
        } else if t[i + 1] == 'u' && i + 5 < t.len() && json_hex(t[i + 2]) < 16 && json_hex(
            t[i + 3],
        ) < 16 && json_hex(t[i + 4]) < 16 && json_hex(t[i + 5]) < 16 {
            (
                Some(
                    (json_hex(t[i + 2]) * 4096 + json_hex(t[i + 3]) * 256 + json_hex(t[i + 4]) * 16
                        + json_hex(t[i + 5])) as char,
                ),
                i + 6,
            )
        } else {
            (None, i + 1)
        };
        match (c, json_read(t, next)) {
            (Some(c), Some((rest, end))) => Some((seq![c] + rest, end)),
            _ => None,
        }
    }
}

/// A JSON reader gets back exactly the text that was quoted, and is left
/// exactly behind it: nothing in the text can end the literal early.
pub proof fn law_json_reads_back(s: Seq<char>, rest: Seq<char>)
    ensures
        json_read(json_quoted(s) + rest, 1) == Some((s, json_quoted(s).len() as int)),
{
    let t = json_quoted(s) + rest;
    assert(t.skip(1) =~= json_escaped(s) + seq!['"'] + rest);
    lemma_json_read(s, rest, t, 1);
}

proof fn lemma_json_read(s: Seq<char>, rest: Seq<char>, t: Seq<char>, i: int)
    requires
        0 <= i <= t.len(),
        t.skip(i) == json_escaped(s) + seq!['"'] + rest,
    ensures
        json_read(t, i) == Some((s, i + json_escaped(s).len() + 1)),
    decreases s.len(),
{
    let u = t.skip(i);
    if s.len() == 0 {
        assert(json_escaped(s) =~= Seq::empty());
        assert(u.len() == 1 + rest.len() && u.len() == t.len() - i);
        assert(u[0] == '"');
        assert(t[i] == u[0]);
        assert(s =~= Seq::empty());
        assert(json_escaped(s).len() == 0);
        assert(json_read(t, i) == Some((s, i + 1)));
    } else {
        let c = s[0];
        let e = json_escape(c);
        let more = json_escaped(s.skip(1));
        let next = i + e.len();
        assert(u =~= e + (more + seq!['"'] + rest));
        assert(t.subrange(i, next) =~= e) by {
            assert(t.subrange(i, next) =~= u.take(e.len() as int));
        }
        assert(t.skip(next) =~= more + seq!['"'] + rest) by {
            assert(t.skip(next) =~= u.skip(e.len() as int));
        }
        lemma_json_read(s.skip(1), rest, t, next);
        lemma_json_step(t, i, c);
        assert(seq![c] + s.skip(1) =~= s);
        assert(json_escaped(s).len() == e.len() + more.len());
    }
}

/// A JSON reader takes one character for each that was escaped.
proof fn lemma_json_step(t: Seq<char>, i: int, c: char)
    requires
        0 <= i,
        i + json_escape(c).len() <= t.len(),
        t.subrange(i, i + json_escape(c).len()) == json_escape(c),
    ensures
        json_read(t, i + json_escape(c).len()) matches Some((rest, end)) ==> json_read(t, i) == Some(
            (seq![c] + rest, end),
        ),
{
    let e = json_escape(c);
    let u = t.subrange(i, i + e.len());
    if c == '"' || c == '\\' || c == '\n' || c == '\r' || c == '\t' {
        assert(e.len() == 2);
        assert(u[0] == t[i] && u[1] == t[i + 1]);
    } else if (c as u32) < 0x20 {
        let h = hex(c as u32 as nat, 4);
        lemma_hex4(c as u32 as nat);
        vstd::utf8::char_u32_cast(c, c as u32);
        assert(e =~= seq!['\\', 'u', h[0], h[1], h[2], h[3]]);
        assert(u[0] == t[i] && u[1] == t[i + 1] && u[2] == t[i + 2]);
        assert(u[3] == t[i + 3] && u[4] == t[i + 4] && u[5] == t[i + 5]);
    } else {
        assert(e.len() == 1);
        assert(u[0] == t[i]);
    }
}

/// A number below 32 in four hexadecimal digits.
proof fn lemma_hex4(n: nat)
    requires
        n < 0x20,
    ensures
        hex(n, 4).len() == 4,
        json_hex(hex(n, 4)[0]) == 0,
        json_hex(hex(n, 4)[1]) == 0,
        json_hex(hex(n, 4)[2]) == n / 16,
        json_hex(hex(n, 4)[3]) == n % 16,
{
    reveal_with_fuel(hex, 5);
    assert(n / 16 / 16 == 0 && n / 16 / 16 / 16 == 0);
}

// ------------------------------------------------------------------- queries

/// The value of a hexadecimal digit, if it is one.
pub open spec fn hex_value(b: u8) -> Option<u8> {
    if 0x30 <= b <= 0x39 {
        Some((b - 0x30) as u8)
    } else if 0x41 <= b <= 0x46 {
        Some((b - 0x37) as u8)
    } else if 0x61 <= b <= 0x66 {
        Some((b - 0x57) as u8)
    } else {
        None
    }
}

/// The byte that two characters after `%` stand for, if they are hexadecimal
/// digits.
pub open spec fn percent_byte(a: u8, b: u8) -> Option<u8> {
    match (hex_value(a), hex_value(b)) {
        (Some(x), Some(y)) => Some((x * 16 + y) as u8),
        _ => None,
    }
}

/// `b` with its percent escapes undone; `+` means space.
pub open spec fn percent_decoded(b: Seq<u8>) -> Seq<u8>
    decreases b.len(),
{
    if b.len() == 0 {
        Seq::empty()
    } else if b[0] == 0x25 && b.len() > 2 && percent_byte(b[1], b[2]) is Some {
        seq![percent_byte(b[1], b[2])->Some_0] + percent_decoded(b.skip(3))
    } else if b[0] == 0x2b {
        seq![0x20u8] + percent_decoded(b.skip(1))
    } else {
        seq![b[0]] + percent_decoded(b.skip(1))
    }
}

fn hex_of(b: u8) -> (r: Option<u8>)
    ensures
        r == hex_value(b),
{
    if 0x30 <= b && b <= 0x39 {
        Some(b - 0x30)
    } else if 0x41 <= b && b <= 0x46 {
        Some(b - 0x37)
    } else if 0x61 <= b && b <= 0x66 {
        Some(b - 0x57)
    } else {
        None
    }
}

fn percent_of(a: u8, b: u8) -> (r: Option<u8>)
    ensures
        r == percent_byte(a, b),
{
    match (hex_of(a), hex_of(b)) {
        (Some(x), Some(y)) => Some(x * 16 + y),
        _ => None,
    }
}

/// Undo percent escapes; `+` means space.
pub fn percent_decode(b: &[u8]) -> (out: Vec<u8>)
    ensures
        out@ == percent_decoded(b@),
{
    let mut out: Vec<u8> = Vec::with_capacity(b.len());
    let mut i: usize = 0;
    assert(b@.skip(0) =~= b@);
    assert(out@ + percent_decoded(b@) =~= percent_decoded(b@));
    while i < b.len()
        invariant
            i <= b@.len(),
            out@ + percent_decoded(b@.skip(i as int)) == percent_decoded(b@),
        decreases b@.len() - i,
    {
        let ghost before = out@;
        let ghost rest = b@.skip(i as int);
        let escape: Option<u8> = if b[i] == 0x25 && b.len() - i > 2 {
            percent_of(b[i + 1], b[i + 2])
        } else {
            None
        };
        match escape {
            Some(v) => {
                out.push(v);
                assert(rest.skip(3) =~= b@.skip(i + 3));
                assert(before + percent_decoded(rest) =~= out@ + percent_decoded(b@.skip(i + 3)));
                i = i + 3;
            },
            None => {
                out.push(if b[i] == 0x2b {
                    0x20
                } else {
                    b[i]
                });
                assert(rest.skip(1) =~= b@.skip(i + 1));
                assert(before + percent_decoded(rest) =~= out@ + percent_decoded(b@.skip(i + 1)));
                i = i + 1;
            },
        }
    }
    assert(b@.skip(i as int) =~= Seq::empty());
    assert(out@ =~= percent_decoded(b@));
    out
}

/// Bytes without `%` and `+` stand for themselves.
pub proof fn law_plain_bytes_are_kept(b: Seq<u8>)
    requires
        forall|i: int| 0 <= i < b.len() ==> b[i] != 0x25 && b[i] != 0x2b,
    ensures
        percent_decoded(b) == b,
    decreases b.len(),
{
    if b.len() > 0 {
        law_plain_bytes_are_kept(b.skip(1));
        assert(seq![b[0]] + b.skip(1) =~= b);
    }
}

/// The text that a query value stands for.
pub open spec fn url_decoded(s: Seq<char>) -> Seq<char> {
    lossy(percent_decoded(encode_utf8(s)))
}

/// Percent-decode one query parameter value (`+` means space).
pub fn url_decode(s: &str) -> (r: String)
    ensures
        r@ == url_decoded(s@),
{
    lossy_text(percent_decode(s.as_bytes()).as_slice())
}

/// The value of the first parameter of `query` called `key`, as it is written.
pub open spec fn raw_param(query: Seq<char>, key: Seq<char>) -> Option<Seq<char>>
    decreases query.len(),
{
    let i = first_at(query, '&', 0);
    let pair = query.take(i);
    match halves(pair, '=') {
        Some((k, v)) if k == key => Some(v),
        _ => if 0 <= i < query.len() {
            raw_param(query.skip(i + 1), key)
        } else {
            None
        },
    }
}

/// The value of the first parameter of `query` called `key`.
pub open spec fn param(query: Seq<char>, key: Seq<char>) -> Option<Seq<char>> {
    match raw_param(query, key) {
        Some(v) => Some(url_decoded(v)),
        None => None,
    }
}

/// The value of the first parameter of `query` called `key`.
pub fn query_param(query: &str, key: &str) -> (r: Option<String>)
    ensures
        match r {
            Some(v) => param(query@, key@) == Some(v@),
            None => param(query@, key@) is None,
        },
{
    let v = chars_of(query);
    let mut pos: usize = 0;
    assert(v@.skip(0) =~= query@);
    loop
        invariant
            pos <= v@.len(),
            raw_param(v@.skip(pos as int), key@) == raw_param(query@, key@),
        decreases v@.len() - pos,
    {
        let ghost s = v@.skip(pos as int);
        let i = find_char(&v, '&', pos);
        proof {
            lemma_first_at_skip(v@, '&', pos as int, 0);
            assert(v@.subrange(pos as int, i as int) =~= s.take(i - pos));
        }
        let pair = text_between(&v, pos, i);
        match split_once(pair.as_str(), '=') {
            Some((k, val)) => if same(k.as_str(), key) {
                return Some(url_decode(val.as_str()));
            },
            None => {},
        }
        if i == v.len() {
            return None;
        }
        assert(v@.skip(i + 1) =~= s.skip(i - pos + 1));
        pos = i + 1;
    }
}

// ------------------------------------------------------------------- replies

/// What is sent back.
#[derive(Debug)]
pub struct Reply {
    pub status: &'static str,
    pub ctype: &'static str,
    /// Further header lines, each with its end.
    pub extra: String,
    pub body: Vec<u8>,
}

/// What is sent back, as contracts see it.
pub struct ReplyView {
    pub status: Seq<char>,
    pub ctype: Seq<char>,
    pub extra: Seq<char>,
    pub body: Seq<u8>,
}

impl View for Reply {
    type V = ReplyView;

    open spec fn view(&self) -> ReplyView {
        ReplyView {
            status: self.status@,
            ctype: self.ctype@,
            extra: self.extra@,
            body: self.body@,
        }
    }
}

impl ReplyView {
    /// A reply that carries JSON.
    pub open spec fn json(status: Seq<char>, json: Seq<char>) -> ReplyView {
        ReplyView {
            status,
            ctype: "application/json; charset=utf-8"@,
            extra: ""@,
            body: encode_utf8(json),
        }
    }

    /// A reply that carries an error.
    pub open spec fn error(status: Seq<char>, msg: Seq<char>) -> ReplyView {
        ReplyView::json(status, "{\"error\":"@ + json_quoted(msg) + "}"@)
    }

    /// The head of the reply.
    pub open spec fn head(self) -> Seq<char> {
        "HTTP/1.1 "@ + self.status + "\r\nContent-Type: "@ + self.ctype + "\r\nContent-Length: "@
            + decimal(self.body.len()) + "\r\nConnection: close\r\n"@ + self.extra + "\r\n"@
    }
}

impl Reply {
    /// A reply that carries JSON.
    pub fn json(status: &'static str, json: &str) -> (r: Reply)
        ensures
            r@ == ReplyView::json(status@, json@),
    {
        Reply {
            status,
            ctype: "application/json; charset=utf-8",
            extra: "".to_string(),
            body: vstd::slice::slice_to_vec(json.as_bytes()),
        }
    }

    /// A reply that carries an error.
    pub fn error(status: &'static str, msg: &str) -> (r: Reply)
        ensures
            r@ == ReplyView::error(status@, msg@),
    {
        let mut json = "{\"error\":".to_string();
        json.append(json_string(msg).as_str());
        json.append("}");
        Reply::json(status, json.as_str())
    }

    /// The head of the reply; the body follows it.
    pub fn head(&self) -> (s: String)
        ensures
            s@ == self@.head(),
    {
        let mut s = "HTTP/1.1 ".to_string();
        s.append(self.status);
        s.append("\r\nContent-Type: ");
        s.append(self.ctype);
        s.append("\r\nContent-Length: ");
        push_decimal(&mut s, self.body.len() as u64);
        s.append("\r\nConnection: close\r\n");
        s.append(self.extra.as_str());
        s.append("\r\n");
        s
    }
}

/// A head is complete exactly if it ends in an empty line, with or without
/// carriage returns.
pub proof fn law_blank_line_ends_a_head(head: Seq<u8>)
    ensures
        ends_blank(head + seq![13u8, 10, 13, 10]),
        ends_blank(head + seq![10u8, 10]),
        ends_blank(head) <==> {
            let n = head.len() as int;
            ||| n >= 4 && head.subrange(n - 4, n) == seq![13u8, 10, 13, 10]
            ||| n >= 2 && head.subrange(n - 2, n) == seq![10u8, 10]
        },
{
    let n = head.len() as int;
    if n >= 4 {
        let t = head.subrange(n - 4, n);
        assert(t[0] == head[n - 4] && t[1] == head[n - 3] && t[2] == head[n - 2] && t[3] == head[n
            - 1]);
        if ends_blank(head) && head[n - 2] != 10 {
            assert(t =~= seq![13u8, 10, 13, 10]);
        }
    }
    if n >= 2 {
        let t = head.subrange(n - 2, n);
        assert(t[0] == head[n - 2] && t[1] == head[n - 1]);
        if ends_blank(head) && head[n - 2] == 10 {
            assert(t =~= seq![10u8, 10]);
        }
    }
}

/// A line goes up to its line feed, of which a carriage return before it is part;
/// the last one may have none.
pub proof fn law_lines(line: Seq<char>, rest: Seq<char>)
    requires
        !line.contains('\n'),
    ensures
        next_line(seq![]) is None,
        line.len() > 0 ==> next_line(line) == Some((line, Seq::<char>::empty())),
        line.len() == 0 || line.last() != '\r' ==> next_line(line.push('\n') + rest) == Some(
            (line, rest),
        ),
        next_line(line.push('\r').push('\n') + rest) == Some((line, rest)),
{
    lemma_first_at(line, '\n', 0);
    let s = line.push('\n') + rest;
    let n = line.len() as int;
    lemma_first_at(s, '\n', 0);
    assert(s[n] == '\n');
    assert(forall|i: int| 0 <= i < n ==> s[i] == line[i]);
    assert(first_at(s, '\n', 0) == n) by {
        let i = first_at(s, '\n', 0);
        if i < n {
            assert(line[i] == '\n');
        }
    }
    assert(s.take(n) =~= line && s.skip(n + 1) =~= rest);
    let c = line.push('\r');
    let t = c.push('\n') + rest;
    lemma_first_at(t, '\n', 0);
    assert(t[n + 1] == '\n' && t[n] == '\r');
    assert(first_at(t, '\n', 0) == n + 1) by {
        let i = first_at(t, '\n', 0);
        if i < n {
            assert(line[i] == t[i]);
            assert(line[i] == '\n');
        }
    }
    assert(t.take(n) =~= line && t.skip(n + 2) =~= rest);
    if line.len() > 0 {
        let j = first_at(line, '\n', 0);
        if j < line.len() {
            assert(line[j] == '\n');
        }
    }
}

/// A word goes up to the next white space; what stands before it is passed over.
pub proof fn law_words(word: Seq<char>, c: char, rest: Seq<char>)
    requires
        word.len() > 0,
        forall|i: int| 0 <= i < word.len() ==> !is_space(#[trigger] word[i]),
        is_space(c),
    ensures
        next_word(seq![]) is None,
        next_word(seq![c] + rest) == next_word(rest),
        next_word(word) == Some((word, Seq::<char>::empty())),
        next_word(word.push(c) + rest) == Some((word, seq![c] + rest)),
{
    assert((seq![c] + rest).skip(1) =~= rest);
    let s = word.push(c) + rest;
    let n = word.len() as int;
    lemma_word_end(word, 0, n);
    assert forall|i: int| 0 <= i < n implies !is_space(#[trigger] s[i]) by {
        assert(s[i] == word[i]);
    }
    lemma_word_end(s, 0, n);
    assert(s.take(n) =~= word && s.skip(n) =~= seq![c] + rest);
    assert(word.take(n) =~= word && word.skip(n) =~= Seq::empty());
}

proof fn lemma_word_end(s: Seq<char>, i: int, n: int)
    requires
        0 <= i <= n <= s.len(),
        forall|k: int| i <= k < n ==> !is_space(#[trigger] s[k]),
        n < s.len() ==> is_space(s[n]),
    ensures
        word_end(s, i) == n,
    decreases n - i,
{
    if i < n {
        lemma_word_end(s, i + 1, n);
    }
}

/// The length of the body is what the last `Content-Length` says, in whatever
/// case that is written; other lines say nothing of it, and where none does there
/// is no body. One that is not a number spoils the request.
pub proof fn law_content_length(line: Seq<char>, rest: Seq<char>, len: nat)
    requires
        !line.contains('\n'),
        line.len() == 0 || line.last() != '\r',
    ensures
        content_length(seq![], len) == Some(len),
        ({
            let after = line.push('\n') + rest;
            let named = halves(line, ':') matches Some((k, v)) && lowered(trimmed(k))
                == "content-length"@;
            &&& !named ==> content_length(after, len) == content_length(rest, len)
            &&& named ==> ({
                let v = halves(line, ':')->Some_0.1;
                match number(trimmed(v), usize::MAX as nat) {
                    Some(n) => content_length(after, len) == content_length(rest, n),
                    None => content_length(after, len) is None,
                }
            })
            &&& content_length(line.push('\r').push('\n') + rest, len) == content_length(after, len)
        }),
{
    law_lines(line, rest);
    reveal_strlit("content-length");
    assert(lowered("content-length"@) =~= "content-length"@);
}

/// A request is taken apart as it was put together: the method, the path, the
/// query if there is one, and the length of the body, which must be within the
/// limit.
pub proof fn law_requests_are_read(
    method: Seq<char>,
    path: Seq<char>,
    query: Seq<char>,
    rest: Seq<char>,
    max_body: nat,
)
    requires
        method.len() > 0 && path.len() > 0,
        forall|i: int| 0 <= i < method.len() ==> !is_space(#[trigger] method[i]),
        forall|i: int| 0 <= i < path.len() ==> !is_space(#[trigger] path[i]) && path[i] != '?',
        forall|i: int| 0 <= i < query.len() ==> !is_space(#[trigger] query[i]),
    ensures
        ({
            let line = method.push(' ') + (path.push('?') + query) + " HTTP/1.1"@;
            let asked = parsed_head(line.push('\r').push('\n') + rest, max_body);
            let line = method.push(' ') + path + " HTTP/1.1"@;
            let bare = parsed_head(line.push('\r').push('\n') + rest, max_body);
            match content_length(rest, 0) {
                None => asked == Err::<HeadView, Seq<char>>(
                    "malformed Content-Length"@,
                ),
                Some(len) => if len > max_body {
                    asked == Err::<HeadView, Seq<char>>(
                        "upload too large ("@ + decimal(len) + " bytes, limit "@ + decimal(max_body)
                            + "); raise it with --max-size"@,
                    )
                } else {
                    &&& asked == Ok::<HeadView, Seq<char>>(
                        HeadView { method, path, query, len },
                    )
                    &&& bare == Ok::<HeadView, Seq<char>>(
                        HeadView { method, path, query: ""@, len },
                    )
                },
            }
        }),
{
    let asked = path.push('?') + query;
    lemma_request(method, asked, rest, max_body);
    lemma_request(method, path, rest, max_body);
    crate::text::law_halves_of_joined(path, '?', query);
    crate::text::law_halves(path, '?');
    assert(!path.contains('?'));
    if halves(path, '?') is Some {
        let (a, b) = halves(path, '?')->Some_0;
        assert((a.push('?') + b)[a.len() as int] == '?');
    }
    assert(halves(path, '?') is None);
    assert(halves(asked, '?') == Some((path, query)));
}

proof fn lemma_request(method: Seq<char>, target: Seq<char>, rest: Seq<char>, max_body: nat)
    requires
        method.len() > 0 && target.len() > 0,
        forall|i: int| 0 <= i < method.len() ==> !is_space(#[trigger] method[i]),
        forall|i: int| 0 <= i < target.len() ==> !is_space(#[trigger] target[i]),
    ensures
        ({
            let text = (method.push(' ') + target + " HTTP/1.1"@).push('\r').push('\n') + rest;
            let (path, query) = match halves(target, '?') {
                Some((p, q)) => (p, q),
                None => (target, ""@),
            };
            parsed_head(text, max_body) == (match content_length(rest, 0) {
                None => Err::<HeadView, Seq<char>>("malformed Content-Length"@),
                Some(len) => if len > max_body {
                    Err(too_large_text(len, max_body))
                } else {
                    Ok(HeadView { method, path, query, len })
                },
            })
        }),
{
    lemma_request_line(method, target, rest);
    lemma_request_words(method, target);
}

proof fn lemma_request_line(method: Seq<char>, target: Seq<char>, rest: Seq<char>)
    requires
        forall|i: int| 0 <= i < method.len() ==> !is_space(#[trigger] method[i]),
        forall|i: int| 0 <= i < target.len() ==> !is_space(#[trigger] target[i]),
    ensures
        ({
            let start = method.push(' ') + target + " HTTP/1.1"@;
            next_line(start.push('\r').push('\n') + rest) == Some((start, rest))
        }),
{
    reveal_strlit(" HTTP/1.1");
    let tail = " HTTP/1.1"@;
    let start = method.push(' ') + target + tail;
    assert(!start.contains('\n')) by {
        if start.contains('\n') {
            let i = choose|i: int| 0 <= i < start.len() && start[i] == '\n';
            let m = method.len() as int;
            if i < m {
                assert(start[i] == method[i]);
            } else if m < i <= m + target.len() {
                assert(start[i] == target[i - m - 1]);
            } else if i > m {
                assert(start[i] == tail[i - m - 1 - target.len()]);
            }
        }
    }
    law_lines(start, rest);
}

proof fn lemma_request_words(method: Seq<char>, target: Seq<char>)
    requires
        method.len() > 0 && target.len() > 0,
        forall|i: int| 0 <= i < method.len() ==> !is_space(#[trigger] method[i]),
        forall|i: int| 0 <= i < target.len() ==> !is_space(#[trigger] target[i]),
    ensures
        next_word(method.push(' ') + target + " HTTP/1.1"@) matches Some((first, after)) && first
            == method && (next_word(after) matches Some((second, _)) && second == target),
{
    reveal_strlit(" HTTP/1.1");
    let tail = " HTTP/1.1"@;
    let start = method.push(' ') + target + tail;
    let more = tail.skip(1);
    law_words(method, ' ', target + tail);
    assert(start =~= method.push(' ') + (target + tail));
    assert(next_word(start) == Some((method, seq![' '] + (target + tail))));
    law_words(target, ' ', more);
    assert(target + tail =~= target.push(' ') + more);
    assert(next_word(seq![' '] + (target + tail)) == Some((target, seq![' '] + more)));
}

/// Escapes are two hexadecimal digits in either case; a percent sign without them
/// stands for itself.
pub proof fn law_percent_escapes(a: u8, b: u8, rest: Seq<u8>)
    ensures
        ({
            let value = |d: u8|
                if 48 <= d <= 57 {
                    d - 48
                } else if 65 <= d <= 70 {
                    d - 55
                } else if 97 <= d <= 102 {
                    d - 87
                } else {
                    -1
                };
            let after = percent_decoded(seq![37u8, a, b] + rest);
            &&& value(a) >= 0 && value(b) >= 0 ==> after == seq![
                (value(a) * 16 + value(b)) as u8,
            ] + percent_decoded(rest)
            &&& value(a) < 0 || value(b) < 0 ==> after == seq![37u8] + percent_decoded(
                seq![a, b] + rest,
            )
        }),
        percent_decoded(seq![37u8, a]) == seq![37u8] + percent_decoded(seq![a]),
        percent_decoded(seq![37u8]) == seq![37u8],
{
    let s = seq![37u8, a, b] + rest;
    assert(s.skip(3) =~= rest && s.skip(1) =~= seq![a, b] + rest);
    assert(seq![37u8, a].skip(1) =~= seq![a]);
    assert(seq![37u8].skip(1) =~= Seq::empty());
    reveal_with_fuel(percent_decoded, 2);
    assert(percent_decoded(seq![37u8]) =~= seq![37u8]);
}

/// A plus sign is a space, and every other byte but the percent sign stands for
/// itself.
pub proof fn law_other_bytes(c: u8, rest: Seq<u8>)
    ensures
        percent_decoded(seq![]) == Seq::<u8>::empty(),
        percent_decoded(seq![43u8] + rest) == seq![32u8] + percent_decoded(rest),
        c != 37 && c != 43 ==> percent_decoded(seq![c] + rest) == seq![c] + percent_decoded(rest),
{
    assert((seq![43u8] + rest).skip(1) =~= rest && (seq![c] + rest).skip(1) =~= rest);
}

/// A value is decoded byte by byte, and its bytes are then read as text.
pub proof fn law_values_are_decoded(s: Seq<char>)
    ensures
        vstd::utf8::valid_utf8(percent_decoded(encode_utf8(s))) ==> url_decoded(s)
            == vstd::utf8::decode_utf8(percent_decoded(encode_utf8(s))),
        !vstd::utf8::valid_utf8(percent_decoded(encode_utf8(s))) ==> url_decoded(s)
            == repaired_text(percent_decoded(encode_utf8(s))),
{
}

/// A parameter is the first one of its name: pairs are separated by ampersands,
/// the name and the value of one by its first equals sign, and a pair without
/// one has no value.
pub proof fn law_parameters(pair: Seq<char>, rest: Seq<char>, key: Seq<char>)
    requires
        !pair.contains('&'),
    ensures
        ({
            let mine = halves(pair, '=') matches Some((k, _)) && k == key;
            let value = halves(pair, '=')->Some_0.1;
            let all = pair.push('&') + rest;
            &&& mine ==> param(pair, key) == Some(url_decoded(value)) && param(all, key) == Some(
                url_decoded(value),
            )
            &&& !mine ==> param(pair, key) is None && param(all, key) == param(rest, key)
        }),
{
    lemma_first_at(pair, '&', 0);
    let i = first_at(pair, '&', 0);
    if i < pair.len() {
        assert(pair[i] == '&');
    }
    assert(pair.take(i) =~= pair);
    let all = pair.push('&') + rest;
    let n = pair.len() as int;
    lemma_first_at(all, '&', 0);
    let j = first_at(all, '&', 0);
    assert(all[n] == '&');
    if j < n {
        assert(pair[j] == all[j]);
    }
    assert(all.take(n) =~= pair && all.skip(n + 1) =~= rest);
}

/// A parameter that is there is found, wherever it stands.
pub proof fn law_parameter_is_found(
    key: Seq<char>,
    value: Seq<char>,
    before: Seq<char>,
    rest: Seq<char>,
)
    requires
        !key.contains('&'),
        !key.contains('='),
        !value.contains('&'),
        !before.contains('&'),
        !(halves(before, '=') matches Some((k, _)) && k == key),
    ensures
        param(key.push('=') + value, key) == Some(url_decoded(value)),
        param((key.push('=') + value).push('&') + rest, key) == Some(url_decoded(value)),
        param(before.push('&') + (key.push('=') + value), key) == Some(url_decoded(value)),
{
    let pair = key.push('=') + value;
    crate::text::law_halves_of_joined(key, '=', value);
    assert(!pair.contains('&')) by {
        if pair.contains('&') {
            let i = choose|i: int| 0 <= i < pair.len() && pair[i] == '&';
            if i < key.len() {
                assert(key[i] == '&');
            } else if i > key.len() {
                assert(value[i - key.len() - 1] == '&');
            }
        }
    }
    law_parameters(pair, rest, key);
    law_parameters(before, pair, key);
}

/// A character that is neither a quote, a backslash nor a control character goes
/// into a literal as it is; the literal is closed by the quotes around it.
pub proof fn law_json_is_plain(s: Seq<char>, c: char)
    ensures
        c as u32 >= 32 && c != '"' && c != '\\' ==> json_escape(c) == seq![c],
        json_escaped(seq![c] + s) == json_escape(c) + json_escaped(s),
        json_escaped(seq![]) == Seq::<char>::empty(),
        json_quoted(s).len() == json_escaped(s).len() + 2,
        json_quoted(s)[0] == '"' && json_quoted(s).last() == '"',
        json_quoted(s).subrange(1, json_quoted(s).len() - 1) == json_escaped(s),
{
    assert((seq![c] + s).skip(1) =~= s);
    let q = json_quoted(s);
    assert(q.subrange(1, q.len() - 1) =~= json_escaped(s));
}

/// A reply has one head: the status, the type and the length of the body, that
/// the connection ends, what the reply adds, and an empty line.
pub proof fn law_replies(r: ReplyView, status: Seq<char>, text: Seq<char>)
    ensures
        r.head() == "HTTP/1.1 "@ + r.status + "\r\nContent-Type: "@ + r.ctype
            + "\r\nContent-Length: "@ + decimal(r.body.len()) + "\r\nConnection: close\r\n"@
            + r.extra + "\r\n"@,
        ReplyView::json(status, text).status == status,
        ReplyView::json(status, text).ctype == "application/json; charset=utf-8"@,
        ReplyView::json(status, text).extra.len() == 0,
        ReplyView::json(status, text).body == encode_utf8(text),
        ReplyView::error(status, text).status == status,
        ReplyView::error(status, text).body == encode_utf8(
            "{\"error\":"@ + json_quoted(text) + "}"@,
        ),
        ReplyView::error(status, text).extra.len() == 0,
{
    reveal_strlit("");
}

/// A field of a reply is what it is called, and so is one of a head.
pub proof fn law_reply_view(r: Reply, h: Head)
    ensures
        r@.status == r.status@ && r@.ctype == r.ctype@ && r@.extra == r.extra@ && r@.body
            == r.body@,
        h@.method == h.method@ && h@.path == h.path@ && h@.query == h.query@ && h@.len == h.len,
{
}

/// A head of up to 16384 bytes is read, and a longer one is refused.
pub proof fn law_heads_are_limited(head: Seq<u8>, max_body: nat)
    ensures
        head.len() <= 16384 ==> requested(head, max_body) == parsed_head(lossy(head), max_body),
        head.len() > 16384 ==> requested(head, max_body) == Err::<HeadView, Seq<char>>(
            "request headers too large"@,
        ),
{
}

/// A request has a first line with a method and a path.
pub proof fn law_malformed_requests(word: Seq<char>, blank: Seq<char>, rest: Seq<char>, max: nat)
    requires
        forall|i: int| 0 <= i < word.len() ==> !is_space(#[trigger] word[i]),
        forall|i: int| 0 <= i < blank.len() ==> is_space(#[trigger] blank[i]) && blank[i] != '\n',
    ensures
        parsed_head(seq![], max) == Err::<HeadView, Seq<char>>("empty request"@),
        parsed_head((word + blank).push('\n') + rest, max) == Err::<HeadView, Seq<char>>(
            "malformed request line"@,
        ),
{
    crate::text::law_white_space('\n');
    let line = word + blank;
    assert(!line.contains('\n')) by {
        if line.contains('\n') {
            let i = choose|i: int| 0 <= i < line.len() && line[i] == '\n';
            if i < word.len() {
                assert(!is_space(word[i]));
            } else {
                assert(is_space(blank[i - word.len()]));
            }
        }
    }
    let text = line.push('\n') + rest;
    lemma_first_at(text, '\n', 0);
    let n = first_at(text, '\n', 0);
    assert(text[line.len() as int] == '\n');
    if n < line.len() {
        assert(line[n] == '\n');
    }
    let start = next_line(text)->Some_0.0;
    assert(n == line.len());
    assert(text.take(n) =~= line);
    if n > 0 && text[n - 1] == '\r' {
        assert(text.take(n - 1) =~= line.drop_last());
        assert(start == line.drop_last());
        assert(line.last() == '\r');
        crate::text::law_white_space('\r');
        assert(blank.len() > 0) by {
            if blank.len() == 0 {
                assert(!is_space(word[word.len() - 1]));
            }
        }
        assert(line.drop_last() =~= word + blank.drop_last());
        lemma_one_word(word, blank.drop_last());
    } else {
        assert(start == line);
        lemma_one_word(word, blank);
    }
}

proof fn lemma_one_word(word: Seq<char>, blank: Seq<char>)
    requires
        forall|i: int| 0 <= i < word.len() ==> !is_space(#[trigger] word[i]),
        forall|i: int| 0 <= i < blank.len() ==> is_space(#[trigger] blank[i]),
    ensures
        next_word(word + blank) matches Some((_, after)) ==> next_word(after) is None,
{
    let s = word + blank;
    let empty = Seq::<char>::empty();
    if word.len() == 0 {
        assert(s =~= blank);
        lemma_all_blank(blank);
    } else {
        assert(!is_space(word[0]));
        assert(s[0] == word[0]);
        assert(trimmed_start(s) == s);
        lemma_word_ends(word, blank, 0);
        assert(s.skip(word.len() as int) =~= blank);
        lemma_all_blank(blank);
    }
}

proof fn lemma_all_blank(s: Seq<char>)
    requires
        forall|i: int| 0 <= i < s.len() ==> is_space(#[trigger] s[i]),
    ensures
        trimmed_start(s).len() == 0,
    decreases s.len(),
{
    if s.len() > 0 {
        assert(is_space(s[0]));
        assert forall|i: int| 0 <= i < s.skip(1).len() implies is_space(#[trigger] s.skip(1)[i]) by {
            assert(is_space(s[i + 1]));
        }
        lemma_all_blank(s.skip(1));
    }
}

proof fn lemma_word_ends(word: Seq<char>, blank: Seq<char>, i: int)
    requires
        0 <= i <= word.len(),
        forall|k: int| 0 <= k < word.len() ==> !is_space(#[trigger] word[k]),
        forall|k: int| 0 <= k < blank.len() ==> is_space(#[trigger] blank[k]),
    ensures
        word_end(word + blank, i) == word.len(),
    decreases word.len() - i,
{
    let s = word + blank;
    if i < word.len() {
        assert(s[i] == word[i]);
        lemma_word_ends(word, blank, i + 1);
    } else if i < s.len() {
        assert(s[i] == blank[0]);
    }
}

} // verus!
