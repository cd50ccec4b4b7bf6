//! Text: numbers, characters and comparison.

use vstd::prelude::*;
use vstd::string::StringExecFns;

verus! {

/// `String::push` appends one character.
pub assume_specification[ String::push ](s: &mut String, ch: char)
    ensures
        final(s)@ == old(s)@.push(ch),
;

/// The decimal digit `d`.
pub open spec fn digit(d: nat) -> char {
    (48 + d) as char
}

/// `n` in decimal, without leading zeros.
pub open spec fn decimal(n: nat) -> Seq<char>
    decreases n,
{
    if n < 10 {
        seq![digit(n)]
    } else {
        decimal(n / 10).push(digit(n % 10))
    }
}

/// The lower-case hexadecimal digit `d`.
pub open spec fn hex_digit(d: nat) -> char {
    if d < 10 {
        digit(d)
    } else {
        (87 + d) as char
    }
}

/// The last `width` hexadecimal digits of `n`, in lower case.
pub open spec fn hex(n: nat, width: nat) -> Seq<char>
    decreases width,
{
    if width == 0 {
        Seq::empty()
    } else {
        hex(n / 16, (width - 1) as nat).push(hex_digit(n % 16))
    }
}

/// Append `n` in decimal.
pub fn push_decimal(s: &mut String, n: u64)
    ensures
        final(s)@ == old(s)@ + decimal(n as nat),
    decreases n,
{
    if n >= 10 {
        push_decimal(s, n / 10);
    }
    s.push((48 + (n % 10) as u8) as char);
    assert(s@ =~= old(s)@ + decimal(n as nat));
}

/// `n` in decimal.
pub fn decimal_text(n: u64) -> (s: String)
    ensures
        s@ == decimal(n as nat),
{
    let mut s = String::new();
    push_decimal(&mut s, n);
    assert(s@ =~= decimal(n as nat));
    s
}

/// Append the last `width` hexadecimal digits of `n`.
pub fn push_hex(s: &mut String, n: u32, width: u32)
    ensures
        final(s)@ == old(s)@ + hex(n as nat, width as nat),
    decreases width,
{
    if width > 0 {
        push_hex(s, n / 16, width - 1);
        let d: u8 = (n % 16) as u8;
        s.push(if d < 10 {
            (48 + d) as char
        } else {
            (87 + d) as char
        });
    }
    assert(s@ =~= old(s)@ + hex(n as nat, width as nat));
}

/// Append `n` in decimal, with a sign where it is negative.
pub fn push_signed(s: &mut String, n: i32)
    ensures
        final(s)@ == old(s)@ + signed(n as int),
{
    if n < 0 {
        s.push('-');
        push_decimal(s, (-(n as i64)) as u64);
    } else {
        push_decimal(s, n as u64);
    }
    assert(s@ =~= old(s)@ + signed(n as int));
}

/// `n` in decimal, with a sign where it is negative.
pub open spec fn signed(n: int) -> Seq<char> {
    if n < 0 {
        seq!['-'] + decimal((-n) as nat)
    } else {
        decimal(n as nat)
    }
}

/// The characters of `s`.
pub fn chars_of(s: &str) -> (v: Vec<char>)
    ensures
        v@ == s@,
{
    let mut v: Vec<char> = Vec::new();
    for c in it: s.chars()
        invariant
            v@ == s@.take(it.index() as int),
            it.seq() == s@,
    {
        v.push(c);
        assert(v@ =~= s@.take(it.index() as int + 1));
    }
    assert(s@.take(s@.len() as int) =~= s@);
    v
}

/// The text from character `from` up to character `to`.
pub fn text_between(v: &Vec<char>, from: usize, to: usize) -> (s: String)
    requires
        from <= to <= v@.len(),
    ensures
        s@ == v@.subrange(from as int, to as int),
{
    let mut s = String::new();
    let mut i: usize = from;
    assert(s@ =~= v@.subrange(from as int, from as int));
    while i < to
        invariant
            from <= i <= to <= v@.len(),
            s@ == v@.subrange(from as int, i as int),
        decreases to - i,
    {
        s.push(v[i]);
        i = i + 1;
        assert(s@ =~= v@.subrange(from as int, i as int));
    }
    s
}

/// A list of texts, as contracts see it.
pub open spec fn texts_of(list: Seq<String>) -> Seq<Seq<char>> {
    Seq::new(list.len(), |i: int| list[i]@)
}

/// A text that may be missing, as contracts see it.
pub open spec fn text_or_none(t: Option<String>) -> Option<Seq<char>> {
    match t {
        Some(s) => Some(s@),
        None => None,
    }
}

/// The texts of `list`, with `sep` in between.
pub open spec fn joined(list: Seq<Seq<char>>, sep: Seq<char>) -> Seq<char>
    decreases list.len(),
{
    if list.len() == 0 {
        Seq::empty()
    } else if list.len() == 1 {
        list[0]
    } else {
        joined(list.drop_last(), sep) + sep + list.last()
    }
}

/// The texts of `list`, with `sep` in between.
pub fn join(list: &Vec<String>, sep: &str) -> (s: String)
    ensures
        s@ == joined(texts_of(list@), sep@),
{
    if list.len() == 0 {
        let s = String::new();
        assert(s@ =~= Seq::empty());
        return s;
    }
    let mut s = list[0].clone();
    let mut i: usize = 1;
    assert(texts_of(list@).take(1) =~= seq![list@[0]@]);
    while i < list.len()
        invariant
            1 <= i <= list@.len(),
            s@ == joined(texts_of(list@).take(i as int), sep@),
        decreases list@.len() - i,
    {
        s.append(sep);
        s.append(list[i].as_str());
        assert(texts_of(list@).take(i + 1).drop_last() =~= texts_of(list@).take(i as int));
        i = i + 1;
    }
    assert(texts_of(list@).take(i as int) =~= texts_of(list@));
    s
}

/// Whether `a` and `b` are the same text.
pub fn same(a: &str, b: &str) -> (r: bool)
    ensures
        r == (a@ == b@),
{
    let x = chars_of(a);
    let y = chars_of(b);
    if x.len() != y.len() {
        return false;
    }
    let mut i: usize = 0;
    while i < x.len()
        invariant
            i <= x@.len() == y@.len(),
            x@ == a@,
            y@ == b@,
            forall|j: int| 0 <= j < i ==> x@[j] == y@[j],
        decreases x@.len() - i,
    {
        if x[i] != y[i] {
            return false;
        }
        i = i + 1;
    }
    assert(x@ =~= y@);
    true
}

/// `c` in lower case, if it is an ASCII letter.
pub open spec fn lower(c: char) -> char {
    if 'A' <= c <= 'Z' {
        (c as u32 + 32) as char
    } else {
        c
    }
}

/// `s` with its ASCII letters in lower case.
pub open spec fn lowered(s: Seq<char>) -> Seq<char> {
    Seq::new(s.len(), |i: int| lower(s[i]))
}

/// `c` in lower case, if it is an ASCII letter.
pub fn to_lower_char(c: char) -> (r: char)
    ensures
        r == lower(c),
{
    if 'A' <= c && c <= 'Z' {
        (c as u8 + 32) as char
    } else {
        c
    }
}

/// `s` with its ASCII letters in lower case.
pub fn to_lower(s: &str) -> (r: String)
    ensures
        r@ == lowered(s@),
{
    let v = chars_of(s);
    let mut r = String::new();
    let mut i: usize = 0;
    while i < v.len()
        invariant
            i <= v@.len(),
            v@ == s@,
            r@.len() == i,
            forall|j: int| 0 <= j < i ==> #[trigger] r@[j] == lower(v@[j]),
        decreases v@.len() - i,
    {
        r.push(to_lower_char(v[i]));
        i = i + 1;
    }
    assert(r@ =~= lowered(s@));
    r
}

/// Whether `a` and `b` are the same text but for the case of ASCII letters.
pub fn same_ignoring_case(a: &str, b: &str) -> (r: bool)
    ensures
        r == (lowered(a@) == lowered(b@)),
{
    same(to_lower(a).as_str(), to_lower(b).as_str())
}

/// White space, as Unicode defines it.
pub open spec fn is_space(c: char) -> bool {
    ||| '\u{9}' <= c <= '\u{d}'
    ||| c == ' '
    ||| c == '\u{85}'
    ||| c == '\u{a0}'
    ||| c == '\u{1680}'
    ||| '\u{2000}' <= c <= '\u{200a}'
    ||| c == '\u{2028}'
    ||| c == '\u{2029}'
    ||| c == '\u{202f}'
    ||| c == '\u{205f}'
    ||| c == '\u{3000}'
}

/// Whether `c` is white space, as Unicode defines it.
pub fn is_white_space(c: char) -> (r: bool)
    ensures
        r == is_space(c),
{
    ('\u{9}' <= c && c <= '\u{d}') || c == ' ' || c == '\u{85}' || c == '\u{a0}' || c
        == '\u{1680}' || ('\u{2000}' <= c && c <= '\u{200a}') || c == '\u{2028}' || c == '\u{2029}'
        || c == '\u{202f}' || c == '\u{205f}' || c == '\u{3000}'
}

/// `s` without the white space at its start.
pub open spec fn trimmed_start(s: Seq<char>) -> Seq<char>
    decreases s.len(),
{
    if s.len() > 0 && is_space(s[0]) {
        trimmed_start(s.skip(1))
    } else {
        s
    }
}

/// `s` without the white space at its end.
pub open spec fn trimmed_end(s: Seq<char>) -> Seq<char>
    decreases s.len(),
{
    if s.len() > 0 && is_space(s.last()) {
        trimmed_end(s.drop_last())
    } else {
        s
    }
}

/// `s` without the white space at its ends.
pub open spec fn trimmed(s: Seq<char>) -> Seq<char> {
    trimmed_end(trimmed_start(s))
}

/// Where the text from `from` up to `to` begins and ends without the white
/// space around it.
pub fn trim_span(v: &Vec<char>, from: usize, to: usize) -> (r: (usize, usize))
    requires
        from <= to <= v@.len(),
    ensures
        from <= r.0 <= r.1 <= to,
        v@.subrange(r.0 as int, r.1 as int) == trimmed(v@.subrange(from as int, to as int)),
{
    let ghost s = v@.subrange(from as int, to as int);
    let mut a: usize = from;
    while a < to && is_white_space(v[a])
        invariant
            from <= a <= to <= v@.len(),
            trimmed_start(v@.subrange(a as int, to as int)) == trimmed_start(s),
        decreases to - a,
    {
        assert(v@.subrange(a as int, to as int).skip(1) =~= v@.subrange(a + 1, to as int));
        a = a + 1;
    }
    assert(trimmed_start(s) == v@.subrange(a as int, to as int));
    let mut b: usize = to;
    while a < b && is_white_space(v[b - 1])
        invariant
            from <= a <= b <= to <= v@.len(),
            trimmed_end(v@.subrange(a as int, b as int)) == trimmed(s),
        decreases b,
    {
        assert(v@.subrange(a as int, b as int).drop_last() =~= v@.subrange(a as int, b - 1));
        b = b - 1;
    }
    (a, b)
}

/// `s` without the white space at its ends.
pub fn trim(s: &str) -> (r: String)
    ensures
        r@ == trimmed(s@),
{
    let v = chars_of(s);
    let (a, b) = trim_span(&v, 0, v.len());
    assert(v@.subrange(0, v@.len() as int) =~= s@);
    text_between(&v, a, b)
}

/// The first place of `c` in `s` from `from` on; the length of `s` if there is
/// none.
pub open spec fn first_at(s: Seq<char>, c: char, from: int) -> int
    decreases s.len() - from,
{
    if from >= s.len() {
        s.len() as int
    } else if s[from] == c {
        from
    } else {
        first_at(s, c, from + 1)
    }
}

/// The last place of `c` in `s` before `to`; -1 if there is none.
pub open spec fn last_at(s: Seq<char>, c: char, to: int) -> int
    decreases to,
{
    if to <= 0 {
        -1
    } else if s[to - 1] == c {
        to - 1
    } else {
        last_at(s, c, to - 1)
    }
}

/// The first place lies where it may.
pub proof fn lemma_first_at(s: Seq<char>, c: char, from: int)
    requires
        0 <= from <= s.len(),
    ensures
        from <= first_at(s, c, from) <= s.len(),
        first_at(s, c, from) < s.len() ==> s[first_at(s, c, from)] == c,
        forall|i: int| from <= i < first_at(s, c, from) ==> s[i] != c,
    decreases s.len() - from,
{
    if from < s.len() && s[from] != c {
        lemma_first_at(s, c, from + 1);
    }
}

/// Skipping the start of a text moves its places.
pub proof fn lemma_first_at_skip(s: Seq<char>, c: char, k: int, from: int)
    requires
        0 <= k <= s.len(),
        0 <= from <= s.len() - k,
    ensures
        first_at(s.skip(k), c, from) == first_at(s, c, k + from) - k,
    decreases s.len() - k - from,
{
    if from < s.len() - k {
        assert(s.skip(k)[from] == s[k + from]);
        if s[k + from] != c {
            lemma_first_at_skip(s, c, k, from + 1);
        }
    }
}

/// The last place lies where it may.
pub proof fn lemma_last_at(s: Seq<char>, c: char, to: int)
    requires
        0 <= to <= s.len(),
    ensures
        -1 <= last_at(s, c, to) < to || to == 0,
        last_at(s, c, to) >= 0 ==> s[last_at(s, c, to)] == c,
        forall|i: int| last_at(s, c, to) < i < to ==> s[i] != c,
    decreases to,
{
    if to > 0 && s[to - 1] != c {
        lemma_last_at(s, c, to - 1);
    }
}

/// The first place of `c` in `v` from `from` on, or the length of `v`.
pub fn find_char(v: &Vec<char>, c: char, from: usize) -> (i: usize)
    requires
        from <= v@.len(),
    ensures
        i == first_at(v@, c, from as int),
        from <= i <= v@.len(),
{
    let mut i: usize = from;
    while i < v.len() && v[i] != c
        invariant
            from <= i <= v@.len(),
            first_at(v@, c, i as int) == first_at(v@, c, from as int),
        decreases v@.len() - i,
    {
        i = i + 1;
    }
    i
}

/// `s` before and after the first `c`.
pub open spec fn halves(s: Seq<char>, c: char) -> Option<(Seq<char>, Seq<char>)> {
    let i = first_at(s, c, 0);
    if i < s.len() {
        Some((s.take(i), s.skip(i + 1)))
    } else {
        None
    }
}

/// `s` before and after the last `c`.
pub open spec fn last_halves(s: Seq<char>, c: char) -> Option<(Seq<char>, Seq<char>)> {
    let i = last_at(s, c, s.len() as int);
    if i >= 0 {
        Some((s.take(i), s.skip(i + 1)))
    } else {
        None
    }
}

/// `s` before and after the first `c`.
pub fn split_once(s: &str, c: char) -> (r: Option<(String, String)>)
    ensures
        match r {
            Some((a, b)) => halves(s@, c) == Some((a@, b@)),
            None => halves(s@, c) is None,
        },
{
    let v = chars_of(s);
    let i = find_char(&v, c, 0);
    if i < v.len() {
        assert(v@.subrange(0, i as int) =~= s@.take(i as int));
        assert(v@.subrange(i + 1, v@.len() as int) =~= s@.skip(i + 1));
        Some((text_between(&v, 0, i), text_between(&v, i + 1, v.len())))
    } else {
        None
    }
}

/// `s` before and after the last `c`.
pub fn rsplit_once(s: &str, c: char) -> (r: Option<(String, String)>)
    ensures
        match r {
            Some((a, b)) => last_halves(s@, c) == Some((a@, b@)),
            None => last_halves(s@, c) is None,
        },
{
    let v = chars_of(s);
    let mut i: usize = v.len();
    while i > 0 && v[i - 1] != c
        invariant
            i <= v@.len(),
            last_at(v@, c, i as int) == last_at(v@, c, v@.len() as int),
        decreases i,
    {
        i = i - 1;
    }
    if i > 0 {
        assert(v@.subrange(0, i - 1) =~= s@.take(i - 1));
        assert(v@.subrange(i as int, v@.len() as int) =~= s@.skip(i as int));
        Some((text_between(&v, 0, i - 1), text_between(&v, i, v.len())))
    } else {
        None
    }
}

/// Whether `needle` stands in `s` at `i`.
pub open spec fn stands_at(s: Seq<char>, needle: Seq<char>, i: int) -> bool {
    0 <= i && i + needle.len() <= s.len() && s.subrange(i, i + needle.len()) == needle
}

/// Whether `needle` stands in `s`.
pub open spec fn holds(s: Seq<char>, needle: Seq<char>) -> bool {
    exists|i: int| stands_at(s, needle, i)
}

/// Whether `needle` stands in `v` at `i`.
pub fn is_at(v: &Vec<char>, needle: &Vec<char>, i: usize) -> (r: bool)
    requires
        i <= v@.len(),
    ensures
        r == stands_at(v@, needle@, i as int),
{
    if needle.len() > v.len() - i {
        return false;
    }
    let ghost part = v@.subrange(i as int, i + needle@.len());
    let mut j: usize = 0;
    while j < needle.len()
        invariant
            j <= needle@.len(),
            i + needle@.len() <= v@.len(),
            part == v@.subrange(i as int, i + needle@.len()),
            forall|k: int| 0 <= k < j ==> part[k] == needle@[k],
        decreases needle@.len() - j,
    {
        assert(v.len() == v@.len());
        assert(part[j as int] == v@[i + j]);
        if v[i + j] != needle[j] {
            return false;
        }
        j = j + 1;
    }
    assert(part =~= needle@);
    true
}

/// Whether `needle` stands in `s`.
pub fn contains(s: &str, needle: &str) -> (r: bool)
    ensures
        r == holds(s@, needle@),
{
    let v = chars_of(s);
    let n = chars_of(needle);
    let mut i: usize = 0;
    while i <= v.len()
        invariant
            v@ == s@,
            n@ == needle@,
            i <= v@.len() + 1,
            forall|j: int| 0 <= j < i ==> !stands_at(s@, needle@, j),
        decreases v@.len() + 1 - i,
    {
        if is_at(&v, &n, i) {
            return true;
        }
        if i == v.len() {
            assert forall|j: int| !stands_at(s@, needle@, j) by {
                if j > i {
                    assert(j + needle@.len() > s@.len());
                }
            }
            return false;
        }
        i = i + 1;
    }
    false
}

/// Whether `s` begins with `prefix`.
pub fn starts_with(s: &str, prefix: &str) -> (r: bool)
    ensures
        r == stands_at(s@, prefix@, 0),
{
    is_at(&chars_of(s), &chars_of(prefix), 0)
}

/// What follows `prefix` in `s`, if `s` begins with it.
pub open spec fn without_prefix(s: Seq<char>, prefix: Seq<char>) -> Option<Seq<char>> {
    if stands_at(s, prefix, 0) {
        Some(s.skip(prefix.len() as int))
    } else {
        None
    }
}

/// What precedes `suffix` in `s`, if `s` ends with it.
pub open spec fn without_suffix(s: Seq<char>, suffix: Seq<char>) -> Option<Seq<char>> {
    if stands_at(s, suffix, s.len() - suffix.len()) {
        Some(s.take(s.len() - suffix.len()))
    } else {
        None
    }
}

/// What follows `prefix` in `s`, if `s` begins with it.
pub fn strip_prefix(s: &str, prefix: &str) -> (r: Option<String>)
    ensures
        match r {
            Some(t) => without_prefix(s@, prefix@) == Some(t@),
            None => without_prefix(s@, prefix@) is None,
        },
{
    let v = chars_of(s);
    let p = chars_of(prefix);
    if is_at(&v, &p, 0) {
        assert(v@.subrange(p@.len() as int, v@.len() as int) =~= s@.skip(p@.len() as int));
        Some(text_between(&v, p.len(), v.len()))
    } else {
        None
    }
}

/// What precedes `suffix` in `s`, if `s` ends with it.
pub fn strip_suffix(s: &str, suffix: &str) -> (r: Option<String>)
    ensures
        match r {
            Some(t) => without_suffix(s@, suffix@) == Some(t@),
            None => without_suffix(s@, suffix@) is None,
        },
{
    let v = chars_of(s);
    let p = chars_of(suffix);
    if p.len() <= v.len() && is_at(&v, &p, v.len() - p.len()) {
        assert(v@.subrange(0, v@.len() - p@.len()) =~= s@.take(v@.len() - p@.len()));
        Some(text_between(&v, 0, v.len() - p.len()))
    } else {
        None
    }
}

/// A decimal digit.
pub open spec fn is_digit(c: char) -> bool {
    '0' <= c <= '9'
}

/// The number that the digits `s` spell.
pub open spec fn digits_value(s: Seq<char>) -> nat
    decreases s.len(),
{
    if s.len() == 0 {
        0
    } else {
        digits_value(s.drop_last()) * 10 + (s.last() as u32 - 48) as nat
    }
}

/// One digit or more, and nothing else.
pub open spec fn all_digits(s: Seq<char>) -> bool {
    s.len() > 0 && forall|i: int| 0 <= i < s.len() ==> is_digit(#[trigger] s[i])
}

/// The whole number up to `max` that `s` spells: digits, with or without a `+`
/// in front.
pub open spec fn number(s: Seq<char>, max: nat) -> Option<nat> {
    let digits = if s.len() > 0 && s[0] == '+' {
        s.skip(1)
    } else {
        s
    };
    if all_digits(digits) && digits_value(digits) <= max {
        Some(digits_value(digits))
    } else {
        None
    }
}

/// The whole number up to `max` that `s` spells.
pub fn parse_number(s: &str, max: u64) -> (r: Option<u64>)
    ensures
        match r {
            Some(n) => number(s@, max as nat) == Some(n as nat),
            None => number(s@, max as nat) is None,
        },
{
    let v = chars_of(s);
    let from: usize = if v.len() > 0 && v[0] == '+' {
        1
    } else {
        0
    };
    let ghost digits = v@.skip(from as int);
    assert(from == 0 ==> digits =~= s@);
    if from == v.len() {
        return None;
    }
    let mut n: u128 = 0;
    let mut i: usize = from;
    assert(digits.take(0) =~= Seq::empty());
    while i < v.len()
        invariant
            from <= i <= v@.len(),
            digits == v@.skip(from as int),
            number(s@, max as nat) == (if all_digits(digits) && digits_value(digits) <= max {
                Some(digits_value(digits))
            } else {
                None
            }),
            forall|j: int| 0 <= j < i - from ==> is_digit(#[trigger] digits[j]),
            n <= max,
            n == digits_value(digits.take(i - from)),
        decreases v@.len() - i,
    {
        let c: char = v[i];
        assert(digits[i - from] == c);
        if c < '0' || c > '9' {
            assert(!all_digits(digits));
            return None;
        }
        assert(digits.take(i - from + 1).drop_last() =~= digits.take(i - from));
        let next: u128 = n * 10 + (c as u32 - 48) as u128;
        if next > max as u128 {
            proof {
                lemma_digits_grow(digits, i - from + 1);
            }
            return None;
        }
        n = next;
        i = i + 1;
    }
    assert(digits.take(i - from) =~= digits);
    Some(n as u64)
}

/// More digits never make a number smaller.
proof fn lemma_digits_grow(s: Seq<char>, n: int)
    requires
        0 <= n <= s.len(),
    ensures
        digits_value(s.take(n)) <= digits_value(s),
    decreases s.len(),
{
    if n < s.len() {
        lemma_digits_grow(s.drop_last(), n);
        assert(s.drop_last().take(n) =~= s.take(n));
    } else {
        assert(s.take(n) =~= s);
    }
}

/// A number is read back as it was written.
pub proof fn law_decimal_is_read_back(n: nat, max: nat)
    requires
        n <= max,
    ensures
        number(decimal(n), max) == Some(n),
{
    lemma_decimal(n);
}

/// What `decimal` writes is digits, and they spell the number.
pub proof fn lemma_decimal(n: nat)
    ensures
        all_digits(decimal(n)),
        digits_value(decimal(n)) == n,
    decreases n,
{
    reveal_with_fuel(digits_value, 2);
    if n < 10 {
        assert(decimal(n).drop_last() =~= Seq::empty());
    } else {
        lemma_decimal(n / 10);
        assert(decimal(n).drop_last() =~= decimal(n / 10));
    }
}

/// White space is the tab, the line and page breaks, the spaces of every width
/// and the no-break ones: what Unicode gives that property.
pub proof fn law_white_space(c: char)
    ensures
        is_space(c) <==> {
            let n = c as u32;
            ||| n == 9 || n == 10 || n == 11 || n == 12 || n == 13
            ||| n == 32 || n == 0x85 || n == 0xa0
            ||| n == 0x1680 || (n >= 0x2000 && n <= 0x200a)
            ||| n == 0x2028 || n == 0x2029 || n == 0x202f || n == 0x205f || n == 0x3000
        },
{
}

/// Trimming takes white space off both ends, all of it, and nothing else.
pub proof fn law_trim(s: Seq<char>)
    ensures
        exists|a: int, b: int|
            0 <= a <= b <= s.len() && trimmed(s) == #[trigger] s.subrange(a, b) && (forall|i: int|
                0 <= i < a || b <= i < s.len() ==> is_space(#[trigger] s[i])),
        trimmed(s).len() > 0 ==> !is_space(trimmed(s)[0]) && !is_space(trimmed(s).last()),
{
    lemma_trimmed_start(s);
    let t = trimmed_start(s);
    lemma_trimmed_end(t);
    let a = s.len() - t.len();
    let b = a + trimmed(s).len();
    assert(trimmed(s) =~= s.subrange(a, b));
    assert forall|i: int| 0 <= i < a || b <= i < s.len() implies is_space(#[trigger] s[i]) by {
        if i >= b {
            assert(t[i - a] == s[i]);
        }
    }
}

proof fn lemma_trimmed_start(s: Seq<char>)
    ensures
        trimmed_start(s).len() <= s.len(),
        trimmed_start(s) == s.skip(s.len() - trimmed_start(s).len()),
        forall|i: int|
            0 <= i < s.len() - trimmed_start(s).len() ==> is_space(#[trigger] s[i]),
        trimmed_start(s).len() > 0 ==> !is_space(trimmed_start(s)[0]),
    decreases s.len(),
{
    if s.len() > 0 && is_space(s[0]) {
        lemma_trimmed_start(s.skip(1));
        let t = trimmed_start(s);
        assert(s.skip(1).skip(s.len() - 1 - t.len()) =~= s.skip(s.len() - t.len()));
        assert forall|i: int| 0 <= i < s.len() - t.len() implies is_space(#[trigger] s[i]) by {
            if i > 0 {
                assert(s.skip(1)[i - 1] == s[i]);
            }
        }
    } else {
        assert(s.skip(0) =~= s);
    }
}

proof fn lemma_trimmed_end(s: Seq<char>)
    ensures
        trimmed_end(s).len() <= s.len(),
        trimmed_end(s) == s.take(trimmed_end(s).len() as int),
        forall|i: int| trimmed_end(s).len() <= i < s.len() ==> is_space(#[trigger] s[i]),
        trimmed_end(s).len() > 0 ==> !is_space(trimmed_end(s).last()),
    decreases s.len(),
{
    if s.len() > 0 && is_space(s.last()) {
        lemma_trimmed_end(s.drop_last());
        let t = trimmed_end(s);
        assert(s.drop_last().take(t.len() as int) =~= s.take(t.len() as int));
        assert forall|i: int| t.len() <= i < s.len() implies is_space(#[trigger] s[i]) by {
            if i < s.len() - 1 {
                assert(s.drop_last()[i] == s[i]);
            }
        }
    } else {
        assert(s.take(s.len() as int) =~= s);
    }
}

/// Text without white space at its ends stays as it is, and white space that is
/// put around it is taken off again.
pub proof fn law_trim_undoes_padding(s: Seq<char>, c: char)
    ensures
        s.len() == 0 || (!is_space(s[0]) && !is_space(s.last())) ==> trimmed(s) == s,
        is_space(c) ==> trimmed(seq![c] + s) == trimmed(s),
        is_space(c) ==> trimmed(s.push(c)) == trimmed(s),
{
    if is_space(c) {
        assert((seq![c] + s).skip(1) =~= s);
        lemma_trim_push(s, c);
    }
}

proof fn lemma_trim_push(s: Seq<char>, c: char)
    requires
        is_space(c),
    ensures
        trimmed(s.push(c)) == trimmed(s),
    decreases s.len(),
{
    let t = s.push(c);
    if s.len() == 0 {
        assert(t.skip(1) =~= Seq::empty());
        assert(s =~= Seq::empty());
    } else if is_space(s[0]) {
        assert(t.skip(1) =~= s.skip(1).push(c));
        lemma_trim_push(s.skip(1), c);
    } else {
        assert(t.drop_last() =~= s);
    }
}

/// Lowering changes the letters `A` to `Z` alone, each to its small form.
pub proof fn law_lower(s: Seq<char>, i: int)
    requires
        0 <= i < s.len(),
    ensures
        lowered(s).len() == s.len(),
        lowered(s)[i] as u32 == (if s[i] as u32 >= 65 && s[i] as u32 <= 90 {
            (s[i] as u32 + 32) as u32
        } else {
            s[i] as u32
        }),
        lowered(lowered(s)) == lowered(s),
{
    assert(lowered(lowered(s)) =~= lowered(s));
}

/// The two halves, with the separator between them, are the text; the first one
/// has no separator, and there are none where the text has none.
pub proof fn law_halves(s: Seq<char>, c: char)
    ensures
        match halves(s, c) {
            Some((a, b)) => s == a.push(c) + b && !a.contains(c),
            None => !s.contains(c),
        },
        match last_halves(s, c) {
            Some((a, b)) => s == a.push(c) + b && !b.contains(c),
            None => !s.contains(c),
        },
{
    lemma_first_at(s, c, 0);
    lemma_last_at(s, c, s.len() as int);
    let i = first_at(s, c, 0);
    if i < s.len() {
        assert(s =~= s.take(i).push(c) + s.skip(i + 1));
    }
    let j = last_at(s, c, s.len() as int);
    if j >= 0 {
        assert(s =~= s.take(j).push(c) + s.skip(j + 1));
    }
}

/// Two texts with a separator between them are its halves again.
pub proof fn law_halves_of_joined(a: Seq<char>, c: char, b: Seq<char>)
    ensures
        !a.contains(c) ==> halves(a.push(c) + b, c) == Some((a, b)),
        !b.contains(c) ==> last_halves(a.push(c) + b, c) == Some((a, b)),
{
    let s = a.push(c) + b;
    let n = a.len() as int;
    assert(s[n] == c);
    lemma_first_at(s, c, 0);
    lemma_last_at(s, c, s.len() as int);
    let i = first_at(s, c, 0);
    let j = last_at(s, c, s.len() as int);
    if !a.contains(c) {
        assert(i >= n) by {
            if i < n {
                assert(a[i] == c);
            }
        }
        assert(s.take(n) =~= a && s.skip(n + 1) =~= b);
    }
    if !b.contains(c) {
        assert(j <= n) by {
            if j > n {
                assert(b[j - n - 1] == c);
            }
        }
        assert(s.take(n) =~= a && s.skip(n + 1) =~= b);
    }
}

/// A text holds another exactly if it is that one with something before and
/// after it.
pub proof fn law_holds(s: Seq<char>, needle: Seq<char>)
    ensures
        holds(s, needle) <==> exists|a: Seq<char>, b: Seq<char>| s == #[trigger] (a + needle + b),
{
    if holds(s, needle) {
        let i = choose|i: int| stands_at(s, needle, i);
        let a = s.take(i);
        let b = s.skip(i + needle.len());
        assert(s =~= a + needle + b) by {
            assert forall|j: int| i <= j < i + needle.len() implies s[j] == needle[j - i] by {
                assert(s.subrange(i, i + needle.len())[j - i] == s[j]);
            }
        }
    }
    if exists|a: Seq<char>, b: Seq<char>| s == #[trigger] (a + needle + b) {
        let (a, b) = choose|a: Seq<char>, b: Seq<char>| s == #[trigger] (a + needle + b);
        assert(s.subrange(a.len() as int, (a.len() + needle.len()) as int) =~= needle);
        assert(stands_at(s, needle, a.len() as int));
    }
}

/// A prefix or suffix that is put on is what is taken off, and nothing else is.
pub proof fn law_prefix_and_suffix(s: Seq<char>, affix: Seq<char>)
    ensures
        without_prefix(affix + s, affix) == Some(s),
        without_suffix(s + affix, affix) == Some(s),
        without_prefix(s, affix) matches Some(r) ==> s == affix + r,
        without_suffix(s, affix) matches Some(r) ==> s == r + affix,
{
    let n = affix.len() as int;
    assert((affix + s).subrange(0, n) =~= affix);
    assert((affix + s).skip(n) =~= s);
    assert((s + affix).subrange(s.len() as int, s.len() + n) =~= affix);
    assert((s + affix).take(s.len() as int) =~= s);
    if stands_at(s, affix, 0) {
        assert(s =~= s.subrange(0, n) + s.skip(n));
    }
    if stands_at(s, affix, s.len() - n) {
        assert(s =~= s.take(s.len() - n) + s.subrange(s.len() - n, s.len() as int));
    }
}

/// Digits are read place by place, a `+` in front of them changes nothing, what
/// is over the limit is no number, and neither is anything that is not digits.
pub proof fn law_number(s: Seq<char>, d: char, max: nat)
    ensures
        number(s, max) matches Some(n) ==> n <= max && s.len() > 0,
        number(seq![], max) is None,
        '0' <= d <= '9' && d as u32 - 48 <= max ==> number(seq![d], max) == Some(
            (d as u32 - 48) as nat,
        ),
        '0' <= d <= '9' && s.len() > 0 && (number(s, max) matches Some(n) && n * 10 + (d as u32
            - 48) <= max) ==> number(s.push(d), max) == Some(
            (number(s, max)->Some_0 * 10 + (d as u32 - 48)) as nat,
        ),
        '0' <= d <= '9' && (number(s, max) matches Some(n) && n * 10 + (d as u32 - 48) > max)
            ==> number(s.push(d), max) is None,
        !('0' <= d <= '9') ==> number(s.push(d), max) is None,
        s.len() > 0 && '0' <= s[0] <= '9' ==> number(seq!['+'] + s, max) == number(s, max),
        s.len() > 0 && !('0' <= s[0] <= '9') && s[0] != '+' ==> number(s, max) is None,
{
    reveal_with_fuel(digits_value, 2);
    let t = s.push(d);
    assert(seq![d].drop_last() =~= Seq::empty());
    assert(all_digits(seq![d]) <==> is_digit(d));
    let sd = if s.len() > 0 && s[0] == '+' {
        s.skip(1)
    } else {
        s
    };
    let td = if t[0] == '+' {
        t.skip(1)
    } else {
        t
    };
    if s.len() > 0 {
        assert(td =~= sd.push(d));
        assert(td.drop_last() =~= sd);
        assert(td.last() == d);
        if all_digits(sd) && is_digit(d) {
            assert forall|i: int| 0 <= i < td.len() implies is_digit(#[trigger] td[i]) by {
                if i < sd.len() {
                    assert(sd[i] == td[i]);
                }
            }
        }
    }
    if !is_digit(d) && td.len() > 0 {
        assert(td.last() == d);
        assert(!all_digits(td));
    }
    assert((seq!['+'] + s).skip(1) =~= s);
}

/// A number that is written has no zero in front, but for zero itself.
pub proof fn law_decimal_is_short(n: nat)
    ensures
        decimal(n).len() > 0,
        n > 0 ==> decimal(n)[0] != '0',
        n == 0 ==> decimal(n) == seq!['0'],
        forall|i: int| 0 <= i < decimal(n).len() ==> '0' <= #[trigger] decimal(n)[i] <= '9',
    decreases n,
{
    lemma_decimal(n);
    if n >= 10 {
        law_decimal_is_short(n / 10);
    }
}

/// A hexadecimal number has the digits asked for, each with a value below 16;
/// the last one is worth one, and each of the others sixteen times the next.
pub proof fn law_hex(n: nat, width: nat)
    ensures
        hex(n, width).len() == width,
        width > 0 ==> hex(n, width).last() as u32 == (if n % 16 < 10 {
            48 + n % 16
        } else {
            87 + n % 16
        }),
        width > 0 ==> hex(n, width).drop_last() == hex(n / 16, (width - 1) as nat),
    decreases width,
{
    if width > 0 {
        law_hex(n / 16, (width - 1) as nat);
        assert(hex(n, width).drop_last() =~= hex(n / 16, (width - 1) as nat));
    }
}

/// A negative number is its opposite with a minus sign in front.
pub proof fn law_signed(n: nat)
    ensures
        signed(n as int) == decimal(n),
        n > 0 ==> signed(-(n as int)) == seq!['-'] + decimal(n),
{
}

/// Joining puts the separator between any two neighbours, and nowhere else.
pub proof fn law_joined(list: Seq<Seq<char>>, sep: Seq<char>, next: Seq<char>)
    ensures
        joined(seq![], sep) == Seq::<char>::empty(),
        joined(seq![next], sep) == next,
        list.len() > 0 ==> joined(list.push(next), sep) == joined(list, sep) + sep + next,
{
    assert(list.push(next).drop_last() =~= list);
}

/// A text is seen as its characters, a list of texts as the texts in their order,
/// and a text that may be missing as missing only where it is.
pub proof fn law_texts(list: Seq<String>, i: int, t: String)
    requires
        0 <= i < list.len(),
    ensures
        texts_of(list).len() == list.len(),
        texts_of(list)[i] == list[i]@,
        text_or_none(Some(t)) == Some(t@),
        text_or_none(None) is None,
{
}

} // verus!
