//! Character-level helpers over `str` and `String`.
//!
//! Contracts speak of texts as sequences of characters.

use vstd::prelude::*;

verus! {

/// `String::push` appends exactly one character at the end.
pub assume_specification[ String::push ](s: &mut String, ch: char)
    ensures
        final(s)@ == old(s)@.push(ch),
;

/// `==` on `str` compares the two texts character by character.
pub assume_specification[ <str as PartialEq>::eq ](s: &str, other: &str) -> (res: bool)
    ensures
        res == (s@ == other@),
;

/// The texts held by a sequence of strings.
pub open spec fn texts(v: Seq<String>) -> Seq<Seq<char>> {
    v.map_values(|s: String| s@)
}

/// The text held by an optional string.
pub open spec fn opt_text(o: Option<String>) -> Option<Seq<char>> {
    match o {
        Some(s) => Some(s@),
        None => None,
    }
}

/// The parts glued together with `sep` between neighbours.
pub open spec fn joined(parts: Seq<Seq<char>>, sep: Seq<char>) -> Seq<char>
    decreases parts.len(),
{
    if parts.len() == 0 {
        Seq::empty()
    } else if parts.len() == 1 {
        parts[0]
    } else {
        joined(parts.drop_last(), sep) + sep + parts.last()
    }
}

/// Whether `needle` stands in `hay` at position `at`.
pub open spec fn occurs_at(hay: Seq<char>, needle: Seq<char>, at: int) -> bool {
    &&& 0 <= at <= hay.len() - needle.len()
    &&& hay.subrange(at, at + needle.len()) == needle
}

/// Whether `needle` stands anywhere in `hay`.
pub open spec fn contains_text(hay: Seq<char>, needle: Seq<char>) -> bool {
    exists|at: int| occurs_at(hay, needle, at)
}

pub open spec fn starts_with_text(hay: Seq<char>, prefix: Seq<char>) -> bool {
    occurs_at(hay, prefix, 0)
}

pub open spec fn ends_with_text(hay: Seq<char>, suffix: Seq<char>) -> bool {
    occurs_at(hay, suffix, hay.len() - suffix.len())
}

/// The characters of a text, in order.
pub fn chars_of(s: &str) -> (r: Vec<char>)
    ensures
        r@ == s@,
{
    let mut out: Vec<char> = Vec::new();
    for c in it: s.chars()
        invariant
            out@ == s@.subrange(0, it.index() as int),
            it.seq() == s@,
    {
        out.push(c);
    }
    assert(out@ =~= s@);
    out
}

/// The text made of `chars[from..to]`.
pub fn string_of(chars: &Vec<char>, from: usize, to: usize) -> (r: String)
    requires
        from <= to <= chars@.len(),
    ensures
        r@ == chars@.subrange(from as int, to as int),
{
    let mut out = String::new();
    let mut i: usize = from;
    while i < to
        invariant
            from <= i <= to <= chars@.len(),
            out@ == chars@.subrange(from as int, i as int),
        decreases to - i,
    {
        out.push(chars[i]);
        i += 1;
        assert(out@ =~= chars@.subrange(from as int, i as int));
    }
    out
}

/// The concatenation of two texts.
pub fn concat2(a: &str, b: &str) -> (r: String)
    ensures
        r@ == a@ + b@,
{
    let mut out = a.to_owned();
    out.append(b);
    out
}

/// The concatenation of three texts.
pub fn concat3(a: &str, b: &str, c: &str) -> (r: String)
    ensures
        r@ == a@ + b@ + c@,
{
    let mut out = concat2(a, b);
    out.append(c);
    out
}

/// Glues the parts together with `sep` between neighbours.
pub fn join(parts: &Vec<String>, sep: &str) -> (r: String)
    ensures
        r@ == joined(texts(parts@), sep@),
{
    let mut out = String::new();
    let mut i: usize = 0;
    while i < parts.len()
        invariant
            i <= parts@.len(),
            out@ == joined(texts(parts@.subrange(0, i as int)), sep@),
        decreases parts@.len() - i,
    {
        let ghost prev = texts(parts@.subrange(0, i as int));
        let ghost next = texts(parts@.subrange(0, i as int + 1));
        assert(next.drop_last() =~= prev);
        assert(next.last() == parts@[i as int]@);
        if i > 0 {
            out.append(sep);
        }
        out.append(parts[i].as_str());
        i += 1;
        assert(out@ =~= joined(next, sep@));
    }
    assert(parts@.subrange(0, i as int) =~= parts@);
    out
}

/// Whether `needle` stands in `hay` at position `at`.
pub fn matches_at(hay: &Vec<char>, needle: &Vec<char>, at: usize) -> (r: bool)
    ensures
        r == occurs_at(hay@, needle@, at as int),
{
    if needle.len() > hay.len() || at > hay.len() - needle.len() {
        return false;
    }
    let total: usize = hay.len();
    let mut i: usize = 0;
    while i < needle.len()
        invariant
            i <= needle@.len(),
            total == hay@.len(),
            at + needle@.len() <= total,
            hay@.subrange(at as int, at + i) == needle@.subrange(0, i as int),
        decreases needle@.len() - i,
    {
        if hay[at + i] != needle[i] {
            assert(hay@.subrange(at as int, at + needle@.len())[i as int] != needle@[i as int]);
            return false;
        }
        i += 1;
        assert(hay@.subrange(at as int, at + i) =~= needle@.subrange(0, i as int));
    }
    assert(needle@.subrange(0, i as int) =~= needle@);
    true
}

/// The first position at or after `from` where `needle` stands in `hay`.
pub fn find_from(hay: &Vec<char>, needle: &Vec<char>, from: usize) -> (r: Option<usize>)
    requires
        from <= hay@.len(),
    ensures
        match r {
            Some(at) => {
                &&& from <= at
                &&& occurs_at(hay@, needle@, at as int)
                &&& forall|k: int| from <= k < at ==> !occurs_at(hay@, needle@, k)
            },
            None => forall|k: int| from <= k ==> !occurs_at(hay@, needle@, k),
        },
{
    let mut at: usize = from;
    while at <= hay.len()
        invariant
            from <= at <= hay@.len() + 1,
            forall|k: int| from <= k < at ==> !occurs_at(hay@, needle@, k),
        decreases hay@.len() + 1 - at,
    {
        if matches_at(hay, needle, at) {
            return Some(at);
        }
        if at == hay.len() {
            return None;
        }
        at += 1;
    }
    None
}

/// Whether `needle` stands anywhere in `hay`.
pub fn contains(hay: &str, needle: &str) -> (r: bool)
    ensures
        r == contains_text(hay@, needle@),
{
    let h = chars_of(hay);
    let n = chars_of(needle);
    find_from(&h, &n, 0).is_some()
}

pub fn starts_with(hay: &str, prefix: &str) -> (r: bool)
    ensures
        r == starts_with_text(hay@, prefix@),
{
    let h = chars_of(hay);
    let n = chars_of(prefix);
    matches_at(&h, &n, 0)
}

pub fn ends_with(hay: &str, suffix: &str) -> (r: bool)
    ensures
        r == ends_with_text(hay@, suffix@),
{
    let h = chars_of(hay);
    let n = chars_of(suffix);
    if n.len() > h.len() {
        return false;
    }
    matches_at(&h, &n, h.len() - n.len())
}

/// A copy of a list of strings.
pub fn clone_strings(v: &Vec<String>) -> (r: Vec<String>)
    ensures
        texts(r@) == texts(v@),
{
    let mut out: Vec<String> = Vec::new();
    let mut i: usize = 0;
    while i < v.len()
        invariant
            i <= v@.len(),
            texts(out@) == texts(v@.subrange(0, i as int)),
        decreases v@.len() - i,
    {
        let ghost before = out@;
        out.push(v[i].clone());
        i += 1;
        assert(texts(out@) =~= texts(before).push(v@[i - 1]@));
        assert(texts(v@.subrange(0, i as int)) =~= texts(v@.subrange(0, i - 1)).push(v@[i - 1]@));
    }
    assert(v@.subrange(0, i as int) =~= v@);
    out
}

/// A copy of an optional string.
pub fn clone_opt(o: &Option<String>) -> (r: Option<String>)
    ensures
        opt_text(r) == opt_text(*o),
{
    match o {
        Some(s) => Some(s.clone()),
        None => None,
    }
}

/// Whether two optional strings hold the same text.
pub fn opt_eq(a: &Option<String>, b: &Option<String>) -> (r: bool)
    ensures
        r == (opt_text(*a) == opt_text(*b)),
{
    match (a, b) {
        (Some(x), Some(y)) => x.as_str().eq(y.as_str()),
        (None, None) => true,
        _ => false,
    }
}

/// The characters of the Unicode property White_Space.
pub open spec fn is_white(c: char) -> bool {
    let n = c as u32;
    ||| 0x09 <= n <= 0x0d
    ||| n == 0x20
    ||| n == 0x85
    ||| n == 0xa0
    ||| n == 0x1680
    ||| 0x2000 <= n <= 0x200a
    ||| n == 0x2028
    ||| n == 0x2029
    ||| n == 0x202f
    ||| n == 0x205f
    ||| n == 0x3000
}

/// `char::is_whitespace` tells the Unicode property White_Space.
pub assume_specification[ char::is_whitespace ](c: char) -> (r: bool)
    ensures
        r == is_white(c),
;

/// The text without leading white space.
pub open spec fn trimmed_start(s: Seq<char>) -> Seq<char>
    decreases s.len(),
{
    if s.len() > 0 && is_white(s[0]) {
        trimmed_start(s.drop_first())
    } else {
        s
    }
}

/// The text without trailing white space.
pub open spec fn trimmed_end(s: Seq<char>) -> Seq<char>
    decreases s.len(),
{
    if s.len() > 0 && is_white(s.last()) {
        trimmed_end(s.drop_last())
    } else {
        s
    }
}

/// The text without white space at either end.
pub open spec fn trimmed(s: Seq<char>) -> Seq<char> {
    trimmed_end(trimmed_start(s))
}

/// The text without white space at either end.
pub fn trim(s: &str) -> (r: String)
    ensures
        r@ == trimmed(s@),
{
    let chars = chars_of(s);
    let mut from: usize = 0;
    assert(chars@.subrange(0, chars@.len() as int) =~= chars@);
    while from < chars.len() && chars[from].is_whitespace()
        invariant
            from <= chars@.len(),
            chars@ == s@,
            trimmed_start(s@) == trimmed_start(chars@.subrange(from as int, chars@.len() as int)),
        decreases chars@.len() - from,
    {
        assert(chars@.subrange(from as int, chars@.len() as int).drop_first() =~= chars@.subrange(
            from + 1,
            chars@.len() as int,
        ));
        from += 1;
    }
    assert(trimmed_start(s@) == chars@.subrange(from as int, chars@.len() as int));
    let mut to: usize = chars.len();
    while from < to && chars[to - 1].is_whitespace()
        invariant
            from <= to <= chars@.len(),
            trimmed(s@) == trimmed_end(chars@.subrange(from as int, to as int)),
        decreases to,
    {
        assert(chars@.subrange(from as int, to as int).drop_last() =~= chars@.subrange(
            from as int,
            to - 1,
        ));
        to -= 1;
    }
    string_of(&chars, from, to)
}

/// The pieces between occurrences of `a` or `b`.
pub open spec fn split_text(s: Seq<char>, a: char, b: char) -> Seq<Seq<char>>
    decreases s.len(),
{
    if s.len() == 0 {
        seq![Seq::empty()]
    } else {
        let before = split_text(s.drop_last(), a, b);
        if s.last() == a || s.last() == b {
            before.push(Seq::empty())
        } else {
            before.update(before.len() - 1, before.last().push(s.last()))
        }
    }
}

/// The pieces of a text between occurrences of `a` or `b`.
pub fn split(s: &str, a: char, b: char) -> (r: Vec<String>)
    ensures
        texts(r@) == split_text(s@, a, b),
        r@.len() >= 1,
{
    let chars = chars_of(s);
    let mut out: Vec<String> = Vec::new();
    let mut piece = String::new();
    let mut i: usize = 0;
    assert(texts(out@).push(piece@) =~= split_text(Seq::empty(), a, b));
    assert(chars@.subrange(0, 0) =~= Seq::empty());
    while i < chars.len()
        invariant
            i <= chars@.len(),
            texts(out@).push(piece@) == split_text(
                chars@.subrange(0, i as int),
                a,
                b,
            ),
        decreases chars@.len() - i,
    {
        let c = chars[i];
        let ghost before = texts(out@).push(piece@);
        assert(chars@.subrange(0, i + 1).drop_last() =~= chars@.subrange(0, i as int));
        if c == a || c == b {
            let ghost had = texts(out@);
            let ghost cut = piece@;
            out.push(piece);
            piece = String::new();
            assert(texts(out@) =~= had.push(cut));
            assert(texts(out@).push(piece@) =~= before.push(Seq::empty()));
        } else {
            piece.push(c);
            assert(texts(out@).push(piece@) =~= before.update(
                before.len() - 1,
                before.last().push(c),
            ));
        }
        i += 1;
    }
    assert(chars@.subrange(0, i as int) =~= s@);
    let ghost had = texts(out@);
    let ghost cut = piece@;
    out.push(piece);
    assert(texts(out@) =~= had.push(cut));
    out
}

pub open spec fn is_digit(c: char) -> bool {
    '0' <= c <= '9'
}

pub open spec fn digit_value(c: char) -> nat {
    (c as u32 - '0' as u32) as nat
}

/// The number that a row of decimal digits spells.
pub open spec fn digits_value(s: Seq<char>) -> nat
    decreases s.len(),
{
    if s.len() == 0 {
        0
    } else {
        digits_value(s.drop_last()) * 10 + digit_value(s.last())
    }
}

pub open spec fn all_digits(s: Seq<char>) -> bool {
    forall|i: int| 0 <= i < s.len() ==> is_digit(#[trigger] s[i])
}

/// An unsigned decimal number: digits, at least one, after an optional
/// plus sign, with a value that 64 bits hold.
pub open spec fn parsed_u64(s: Seq<char>) -> Option<u64> {
    let digits = if s.len() > 0 && s[0] == '+' {
        s.drop_first()
    } else {
        s
    };
    if digits.len() > 0 && all_digits(digits) && digits_value(digits) <= u64::MAX {
        Some(digits_value(digits) as u64)
    } else {
        None
    }
}

proof fn lemma_digits_value_grows(s: Seq<char>, from: int)
    requires
        0 <= from <= s.len(),
    ensures
        digits_value(s.subrange(0, from)) <= digits_value(s),
    decreases s.len() - from,
{
    if from < s.len() {
        lemma_digits_value_grows(s, from + 1);
        assert(s.subrange(0, from + 1).drop_last() =~= s.subrange(0, from));
    } else {
        assert(s.subrange(0, from) =~= s);
    }
}

/// Reads an unsigned decimal number.
pub fn parse_u64(s: &str) -> (r: Option<u64>)
    ensures
        r == parsed_u64(s@),
{
    let chars = chars_of(s);
    let from: usize = if chars.len() > 0 && chars[0] == '+' {
        1
    } else {
        0
    };
    let ghost digits = chars@.subrange(from as int, chars@.len() as int);
    proof {
        if from == 1 {
            assert(digits =~= s@.drop_first());
        } else {
            assert(digits =~= s@);
        }
    }
    if from == chars.len() {
        return None;
    }
    let mut value: u64 = 0;
    let mut i: usize = from;
    assert(digits.subrange(0, 0) =~= Seq::empty());
    while i < chars.len()
        invariant
            from <= i <= chars@.len(),
            digits == chars@.subrange(from as int, chars@.len() as int),
            digits.len() > 0,
            value == digits_value(digits.subrange(0, i - from)),
            forall|k: int| 0 <= k < i - from ==> is_digit(#[trigger] digits[k]),
            parsed_u64(s@) == (if all_digits(digits) && digits_value(digits) <= u64::MAX {
                Some(digits_value(digits) as u64)
            } else {
                None
            }),
        decreases chars@.len() - i,
    {
        let c = chars[i];
        assert(digits[i - from] == c);
        if !(c >= '0' && c <= '9') {
            return None;
        }
        let d: u64 = (c as u32 - '0' as u32) as u64;
        proof {
            assert(digits.subrange(0, i - from + 1).drop_last() =~= digits.subrange(0, i - from));
            lemma_digits_value_grows(digits, i - from + 1);
        }
        if value > u64::MAX / 10 || (value == u64::MAX / 10 && d > u64::MAX % 10) {
            return None;
        }
        value = value * 10 + d;
        i += 1;
    }
    assert(digits.subrange(0, i - from) =~= digits);
    Some(value)
}

/// The decimal spelling of a number.
pub open spec fn decimal_text(n: nat) -> Seq<char>
    decreases n,
{
    if n < 10 {
        seq![('0' as u32 + n) as char]
    } else {
        decimal_text(n / 10).push(('0' as u32 + n % 10) as char)
    }
}

fn digit_char(d: u64) -> (r: char)
    requires
        d < 10,
    ensures
        r == ('0' as u32 + d) as char,
{
    if d == 0 {
        '0'
    } else if d == 1 {
        '1'
    } else if d == 2 {
        '2'
    } else if d == 3 {
        '3'
    } else if d == 4 {
        '4'
    } else if d == 5 {
        '5'
    } else if d == 6 {
        '6'
    } else if d == 7 {
        '7'
    } else if d == 8 {
        '8'
    } else {
        '9'
    }
}

/// The decimal spelling of a number.
pub fn decimal(n: u64) -> (r: String)
    ensures
        r@ == decimal_text(n as nat),
    decreases n,
{
    if n < 10 {
        let mut out = String::new();
        out.push(digit_char(n));
        assert(out@ =~= decimal_text(n as nat));
        out
    } else {
        let mut out = decimal(n / 10);
        out.push(digit_char(n % 10));
        out
    }
}

/// Reading a number's decimal spelling gives the number back.
pub proof fn lemma_decimal_round_trip(n: u64)
    ensures
        parsed_u64(decimal_text(n as nat)) == Some(n),
{
    lemma_decimal_digits(n as nat);
}

proof fn lemma_decimal_digits(n: nat)
    ensures
        all_digits(decimal_text(n)),
        digits_value(decimal_text(n)) == n,
        decimal_text(n).len() > 0,
    decreases n,
{
    let s = decimal_text(n);
    if n < 10 {
        assert(s.drop_last() =~= Seq::empty());
        assert(is_digit(s[0]));
        assert(digits_value(s.drop_last()) == 0);
    } else {
        lemma_decimal_digits(n / 10);
        let before = decimal_text(n / 10);
        assert(s.drop_last() =~= before);
        assert forall|i: int| 0 <= i < s.len() implies is_digit(#[trigger] s[i]) by {
            if i < before.len() {
                assert(is_digit(before[i]));
            }
        }
    }
}

/// Whether one text stands before another in the order of code points.
pub open spec fn text_lt(a: Seq<char>, b: Seq<char>) -> bool
    decreases a.len(),
{
    if b.len() == 0 {
        false
    } else if a.len() == 0 {
        true
    } else if a[0] != b[0] {
        a[0] < b[0]
    } else {
        text_lt(a.drop_first(), b.drop_first())
    }
}

pub proof fn lemma_text_lt_irreflexive(a: Seq<char>)
    ensures
        !text_lt(a, a),
    decreases a.len(),
{
    if a.len() > 0 {
        lemma_text_lt_irreflexive(a.drop_first());
    }
}

pub proof fn lemma_text_lt_transitive(a: Seq<char>, b: Seq<char>, c: Seq<char>)
    requires
        text_lt(a, b),
        text_lt(b, c),
    ensures
        text_lt(a, c),
    decreases a.len(),
{
    if a.len() > 0 && a[0] == b[0] && b[0] == c[0] {
        lemma_text_lt_transitive(a.drop_first(), b.drop_first(), c.drop_first());
    }
}

pub proof fn lemma_text_lt_total(a: Seq<char>, b: Seq<char>)
    ensures
        a == b || text_lt(a, b) || text_lt(b, a),
    decreases a.len(),
{
    if a.len() > 0 && b.len() > 0 && a[0] == b[0] {
        lemma_text_lt_total(a.drop_first(), b.drop_first());
        if a.drop_first() == b.drop_first() {
            assert(a =~= seq![a[0]] + a.drop_first());
            assert(b =~= seq![b[0]] + b.drop_first());
        }
    } else if a.len() == 0 && b.len() == 0 {
        assert(a =~= b);
    }
}

/// Whether one text stands before another in the order of code points.
pub fn str_lt(a: &str, b: &str) -> (r: bool)
    ensures
        r == text_lt(a@, b@),
{
    let x = chars_of(a);
    let y = chars_of(b);
    let mut i: usize = 0;
    assert(x@.subrange(0, x@.len() as int) =~= a@);
    assert(y@.subrange(0, y@.len() as int) =~= b@);
    while i < x.len() && i < y.len() && x[i] == y[i]
        invariant
            i <= x@.len(),
            i <= y@.len(),
            text_lt(a@, b@) == text_lt(
                x@.subrange(i as int, x@.len() as int),
                y@.subrange(i as int, y@.len() as int),
            ),
        decreases x@.len() - i,
    {
        assert(x@.subrange(i as int, x@.len() as int).drop_first() =~= x@.subrange(
            i + 1,
            x@.len() as int,
        ));
        assert(y@.subrange(i as int, y@.len() as int).drop_first() =~= y@.subrange(
            i + 1,
            y@.len() as int,
        ));
        i += 1;
    }
    if i == y.len() {
        false
    } else if i == x.len() {
        true
    } else {
        x[i] < y[i]
    }
}

/// A line without the carriage return of its line ending.
pub open spec fn without_return(s: Seq<char>) -> Seq<char> {
    if s.len() > 0 && s.last() == '\r' {
        s.drop_last()
    } else {
        s
    }
}

/// The lines of a text: split at line feeds, each with an optional carriage
/// return before it. What follows the last line feed is a line unless it
/// is empty.
pub open spec fn lines_text(s: Seq<char>) -> Seq<Seq<char>> {
    let parts = split_text(s, '\n', '\n');
    let ended = parts.drop_last().map_values(|p: Seq<char>| without_return(p));
    if parts.last().len() > 0 {
        ended.push(parts.last())
    } else {
        ended
    }
}

/// The lines of a text.
pub fn lines(s: &str) -> (r: Vec<String>)
    ensures
        texts(r@) == lines_text(s@),
{
    let parts = split(s, '\n', '\n');
    let ghost all = texts(parts@);
    let ghost ended = all.drop_last().map_values(|p: Seq<char>| without_return(p));
    let mut out: Vec<String> = Vec::new();
    let mut i: usize = 0;
    while i < parts.len() - 1
        invariant
            parts@.len() >= 1,
            all == texts(parts@),
            ended == all.drop_last().map_values(|p: Seq<char>| without_return(p)),
            i <= parts@.len() - 1,
            texts(out@) == ended.subrange(0, i as int),
        decreases parts@.len() - 1 - i,
    {
        let chars = chars_of(parts[i].as_str());
        assert(chars@ == all[i as int]);
        let n: usize = chars.len();
        let ghost had = texts(out@);
        if n > 0 && chars[n - 1] == '\r' {
            assert(chars@.subrange(0, n - 1) =~= chars@.drop_last());
            out.push(string_of(&chars, 0, n - 1));
        } else {
            assert(chars@.subrange(0, n as int) =~= chars@);
            out.push(string_of(&chars, 0, n));
        }
        assert(texts(out@) =~= had.push(without_return(all[i as int])));
        i += 1;
        assert(texts(out@) =~= ended.subrange(0, i as int));
    }
    assert(ended.subrange(0, i as int) =~= ended);
    let last = parts[parts.len() - 1].clone();
    if !last.as_str().is_empty() {
        let ghost had = texts(out@);
        out.push(last);
        assert(texts(out@) =~= had.push(all.last()));
    }
    out
}

/// The first place of `c` in a text, or the text's length.
pub open spec fn first_place(s: Seq<char>, c: char) -> int
    decreases s.len(),
{
    if s.len() == 0 || s[0] == c {
        0
    } else {
        1 + first_place(s.drop_first(), c)
    }
}

pub proof fn lemma_first_place(s: Seq<char>, c: char)
    ensures
        0 <= first_place(s, c) <= s.len(),
        forall|i: int| 0 <= i < first_place(s, c) ==> #[trigger] s[i] != c,
        first_place(s, c) < s.len() ==> s[first_place(s, c)] == c,
    decreases s.len(),
{
    if s.len() > 0 && s[0] != c {
        let t = s.drop_first();
        lemma_first_place(t, c);
        assert forall|i: int| 0 <= i < first_place(s, c) implies #[trigger] s[i] != c by {
            if i > 0 {
                assert(t[i - 1] == s[i]);
            }
        }
    }
}

/// At most `n` fields of a text, cut at the first occurrences of `c`; the
/// last field keeps the rest.
pub open spec fn fields_text(s: Seq<char>, c: char, n: nat) -> Seq<Seq<char>>
    decreases n,
{
    let at = first_place(s, c);
    if n == 0 {
        Seq::empty()
    } else if n == 1 || at >= s.len() {
        seq![s]
    } else {
        seq![s.subrange(0, at)] + fields_text(s.subrange(at + 1, s.len() as int), c, (n - 1) as nat)
    }
}

/// The first place of `c` in `chars[from..]`, counted from the start.
pub fn find_char(chars: &Vec<char>, c: char, from: usize) -> (r: usize)
    requires
        from <= chars@.len(),
    ensures
        r == from + first_place(chars@.subrange(from as int, chars@.len() as int), c),
        from <= r <= chars@.len(),
{
    let ghost rest = chars@.subrange(from as int, chars@.len() as int);
    proof {
        lemma_first_place(rest, c);
    }
    let mut at: usize = from;
    assert(chars@.subrange(at as int, chars@.len() as int) =~= rest);
    while at < chars.len() && chars[at] != c
        invariant
            from <= at <= chars@.len(),
            first_place(rest, c) == at - from + first_place(
                chars@.subrange(at as int, chars@.len() as int),
                c,
            ),
        decreases chars@.len() - at,
    {
        assert(chars@.subrange(at as int, chars@.len() as int).drop_first() =~= chars@.subrange(
            at + 1,
            chars@.len() as int,
        ));
        at += 1;
    }
    at
}

/// At most `n` fields of a text, cut at the first occurrences of `c`.
pub fn fields(s: &str, c: char, n: usize) -> (r: Vec<String>)
    ensures
        texts(r@) == fields_text(s@, c, n as nat),
{
    let chars = chars_of(s);
    let mut out: Vec<String> = Vec::new();
    let mut from: usize = 0;
    let mut left: usize = n;
    let ghost whole = fields_text(s@, c, n as nat);
    assert(chars@.subrange(0, chars@.len() as int) =~= s@);
    assert(texts(out@) + whole =~= whole);
    while left > 0
        invariant
            from <= chars@.len(),
            texts(out@) + fields_text(
                chars@.subrange(from as int, chars@.len() as int),
                c,
                left as nat,
            ) == whole,
            whole == fields_text(s@, c, n as nat),
        decreases left,
    {
        let at: usize = find_char(&chars, c, from);
        let ghost rest = chars@.subrange(from as int, chars@.len() as int);
        let ghost had = texts(out@);
        if left == 1 || at == chars.len() {
            out.push(string_of(&chars, from, chars.len()));
            assert(texts(out@) =~= had + seq![rest]);
            return out;
        }
        out.push(string_of(&chars, from, at));
        assert(rest.subrange(0, at - from) =~= chars@.subrange(from as int, at as int));
        assert(texts(out@) =~= had.push(rest.subrange(0, at - from)));
        assert(rest.subrange(at - from + 1, rest.len() as int) =~= chars@.subrange(
            at + 1,
            chars@.len() as int,
        ));
        proof {
            let tail = fields_text(
                chars@.subrange(at + 1, chars@.len() as int),
                c,
                (left - 1) as nat,
            );
            assert(had.push(rest.subrange(0, at - from)) + tail =~= had + (seq![
                rest.subrange(0, at - from),
            ] + tail));
        }
        from = at + 1;
        left -= 1;
    }
    assert(texts(out@) + Seq::<Seq<char>>::empty() =~= texts(out@));
    out
}

/// The text behind a prefix; `None` where it does not stand there.
pub open spec fn behind(s: Seq<char>, prefix: Seq<char>) -> Option<Seq<char>> {
    if starts_with_text(s, prefix) {
        Some(s.subrange(prefix.len() as int, s.len() as int))
    } else {
        None
    }
}

/// The text behind a prefix.
pub fn strip_prefix(s: &str, prefix: &str) -> (r: Option<String>)
    ensures
        opt_text(r) == behind(s@, prefix@),
{
    let chars = chars_of(s);
    let head = chars_of(prefix);
    if matches_at(&chars, &head, 0) {
        Some(string_of(&chars, head.len(), chars.len()))
    } else {
        None
    }
}

/// A signed decimal number: an optional sign and at least one digit, with
/// a value that 64 bits hold.
pub open spec fn parsed_i64(s: Seq<char>) -> Option<i64> {
    let negative = s.len() > 0 && s[0] == '-';
    let digits = if s.len() > 0 && (s[0] == '+' || s[0] == '-') {
        s.drop_first()
    } else {
        s
    };
    if digits.len() > 0 && all_digits(digits) {
        let value: int = if negative {
            -digits_value(digits)
        } else {
            digits_value(digits) as int
        };
        if i64::MIN <= value <= i64::MAX {
            Some(value as i64)
        } else {
            None
        }
    } else {
        None
    }
}

/// Reads a signed decimal number.
pub fn parse_i64(s: &str) -> (r: Option<i64>)
    ensures
        r == parsed_i64(s@),
{
    let chars = chars_of(s);
    if chars.len() == 0 {
        return None;
    }
    let negative: bool = chars[0] == '-';
    let from: usize = if negative || chars[0] == '+' {
        1
    } else {
        0
    };
    let rest = string_of(&chars, from, chars.len());
    proof {
        if from == 1 {
            assert(rest@ =~= s@.drop_first());
        } else {
            assert(rest@ =~= s@);
        }
    }
    if from == 1 && chars.len() > 1 && chars[1] == '+' {
        assert(!is_digit(rest@[0]));
        return None;
    }
    proof {
        if rest@.len() > 0 && rest@[0] == '+' {
            assert(from == 0 || chars@[1] == '+');
        }
    }
    match parse_u64(rest.as_str()) {
        Some(value) => if negative {
            if value < 0x8000_0000_0000_0000 {
                Some(-(value as i64))
            } else if value == 0x8000_0000_0000_0000 {
                Some(i64::MIN)
            } else {
                None
            }
        } else if value <= 0x7FFF_FFFF_FFFF_FFFF {
            Some(value as i64)
        } else {
            None
        },
        None => None,
    }
}

/// A text stands at the beginning, in the middle and at the end of what it
/// was put into; what begins or ends with it is it and a rest.
pub proof fn lemma_texts_are_found_where_they_stand(
    before: Seq<char>,
    needle: Seq<char>,
    after: Seq<char>,
    hay: Seq<char>,
)
    ensures
        starts_with_text(needle + after, needle),
        ends_with_text(before + needle, needle),
        contains_text(before + needle + after, needle),
        behind(needle + after, needle) == Some(after),
        starts_with_text(hay, needle) ==> hay == needle + hay.subrange(
            needle.len() as int,
            hay.len() as int,
        ),
        ends_with_text(hay, needle) ==> hay == hay.subrange(0, hay.len() - needle.len()) + needle,
        contains_text(hay, needle) ==> exists|at: int|
            0 <= at <= hay.len() - needle.len() && #[trigger] hay.subrange(at, at + needle.len())
                == needle,
        behind(hay, needle) matches Some(rest) ==> hay == needle + rest,
{
    assert((needle + after).subrange(0, needle.len() as int) =~= needle);
    let b = before + needle;
    assert(b.subrange(before.len() as int, b.len() as int) =~= needle);
    let whole = before + needle + after;
    assert(whole.subrange(before.len() as int, (before.len() + needle.len()) as int) =~= needle);
    assert(occurs_at(whole, needle, before.len() as int));
    assert((needle + after).subrange(needle.len() as int, (needle + after).len() as int) =~= after);
    if starts_with_text(hay, needle) {
        assert(hay =~= hay.subrange(0, needle.len() as int) + hay.subrange(
            needle.len() as int,
            hay.len() as int,
        ));
    }
    if ends_with_text(hay, needle) {
        let at = hay.len() - needle.len();
        assert(hay =~= hay.subrange(0, at) + hay.subrange(at, hay.len() as int));
    }
    if contains_text(hay, needle) {
        let at = choose|at: int| occurs_at(hay, needle, at);
        assert(hay.subrange(at, at + needle.len()) == needle);
    }
}

/// Trimming cuts white space off both ends and nothing else.
pub proof fn lemma_trimming_cuts_white_ends(s: Seq<char>)
    ensures
        exists|from: int, to: int|
            {
                &&& 0 <= from <= to <= s.len()
                &&& trimmed(s) == #[trigger] s.subrange(from, to)
                &&& forall|k: int| 0 <= k < from ==> is_white(#[trigger] s[k])
                &&& forall|k: int| to <= k < s.len() ==> is_white(#[trigger] s[k])
            },
        trimmed(s).len() > 0 ==> !is_white(trimmed(s)[0]) && !is_white(trimmed(s).last()),
{
    let from = lemma_start_cut(s);
    let t = trimmed_start(s);
    let to = lemma_end_cut(t);
    assert(trimmed(s) =~= s.subrange(from, from + to));
    assert forall|k: int| from + to <= k < s.len() implies is_white(#[trigger] s[k]) by {
        assert(t[k - from] == s[k]);
    }
    if trimmed(s).len() > 0 {
        assert(trimmed(s)[0] == t[0]);
    }
}

proof fn lemma_start_cut(s: Seq<char>) -> (from: int)
    ensures
        0 <= from <= s.len(),
        trimmed_start(s) == s.subrange(from, s.len() as int),
        forall|k: int| 0 <= k < from ==> is_white(#[trigger] s[k]),
        from < s.len() ==> !is_white(s[from]),
    decreases s.len(),
{
    if s.len() > 0 && is_white(s[0]) {
        let rest = s.drop_first();
        let from = lemma_start_cut(rest);
        assert(trimmed_start(s) =~= s.subrange(from + 1, s.len() as int));
        assert forall|k: int| 0 <= k < from + 1 implies is_white(#[trigger] s[k]) by {
            if k > 0 {
                assert(rest[k - 1] == s[k]);
            }
        }
        from + 1
    } else {
        assert(s.subrange(0, s.len() as int) =~= s);
        0
    }
}

proof fn lemma_end_cut(s: Seq<char>) -> (to: int)
    ensures
        0 <= to <= s.len(),
        trimmed_end(s) == s.subrange(0, to),
        forall|k: int| to <= k < s.len() ==> is_white(#[trigger] s[k]),
        to > 0 ==> !is_white(s[to - 1]),
    decreases s.len(),
{
    if s.len() > 0 && is_white(s.last()) {
        let rest = s.drop_last();
        let to = lemma_end_cut(rest);
        assert(trimmed_end(s) =~= s.subrange(0, to));
        assert forall|k: int| to <= k < s.len() implies is_white(#[trigger] s[k]) by {
            if k < rest.len() {
                assert(rest[k] == s[k]);
            }
        }
        to
    } else {
        assert(s.subrange(0, s.len() as int) =~= s);
        s.len() as int
    }
}

/// A text is cut at every separator and nowhere else: one without any is a
/// single piece, and the pieces of two texts with a separator between them
/// are the pieces of the one and then those of the other.
pub proof fn lemma_pieces_lie_between_separators(x: Seq<char>, y: Seq<char>, a: char, b: char)
    ensures
        (forall|i: int| 0 <= i < x.len() ==> #[trigger] x[i] != a && x[i] != b) ==> split_text(
            x,
            a,
            b,
        ) == seq![x],
        split_text(x.push(a) + y, a, b) == split_text(x, a, b) + split_text(y, a, b),
        split_text(x.push(b) + y, a, b) == split_text(x, a, b) + split_text(y, a, b),
        split_text(x, a, b).len() >= 1,
    decreases x.len() + y.len(),
{
    lemma_some_piece(x, a, b);
    if forall|i: int| 0 <= i < x.len() ==> #[trigger] x[i] != a && x[i] != b {
        lemma_one_piece(x, a, b);
    }
    lemma_pieces_add_up(x, y, a, a, b);
    lemma_pieces_add_up(x, y, b, a, b);
}

proof fn lemma_some_piece(x: Seq<char>, a: char, b: char)
    ensures
        split_text(x, a, b).len() >= 1,
    decreases x.len(),
{
    if x.len() > 0 {
        lemma_some_piece(x.drop_last(), a, b);
    }
}

proof fn lemma_one_piece(x: Seq<char>, a: char, b: char)
    requires
        forall|i: int| 0 <= i < x.len() ==> #[trigger] x[i] != a && x[i] != b,
    ensures
        split_text(x, a, b) == seq![x],
    decreases x.len(),
{
    if x.len() == 0 {
        assert(x =~= Seq::empty());
    } else {
        let rest = x.drop_last();
        assert forall|i: int| 0 <= i < rest.len() implies #[trigger] rest[i] != a && rest[i]
            != b by {
            assert(x[i] == rest[i]);
        }
        lemma_one_piece(rest, a, b);
        assert(rest.push(x.last()) =~= x);
        assert(split_text(x, a, b) =~= seq![x]);
    }
}

proof fn lemma_pieces_add_up(x: Seq<char>, y: Seq<char>, sep: char, a: char, b: char)
    requires
        sep == a || sep == b,
    ensures
        split_text(x.push(sep) + y, a, b) == split_text(x, a, b) + split_text(y, a, b),
    decreases y.len(),
{
    let whole = x.push(sep) + y;
    lemma_some_piece(x, a, b);
    if y.len() == 0 {
        assert(whole.drop_last() =~= x);
        assert(split_text(whole, a, b) =~= split_text(x, a, b) + split_text(y, a, b));
    } else {
        let rest = y.drop_last();
        lemma_pieces_add_up(x, rest, sep, a, b);
        lemma_some_piece(rest, a, b);
        assert(whole.drop_last() =~= x.push(sep) + rest);
        assert(whole.last() == y.last());
        assert(split_text(whole, a, b) =~= split_text(x, a, b) + split_text(y, a, b));
    }
}

/// The lines of a text: each ends at a line feed, a carriage return before
/// which belongs to the ending; what is left behind the last one is a line
/// of its own, if it is anything.
pub proof fn lemma_lines_end_at_line_feeds(x: Seq<char>, y: Seq<char>)
    requires
        forall|i: int| 0 <= i < x.len() ==> #[trigger] x[i] != '\n',
    ensures
        lines_text(x) == if x.len() == 0 {
            Seq::<Seq<char>>::empty()
        } else {
            seq![x]
        },
        lines_text(x.push('\n') + y) == seq![
            if x.len() > 0 && x.last() == '\r' {
                x.drop_last()
            } else {
                x
            },
        ] + lines_text(y),
{
    lemma_pieces_lie_between_separators(x, y, '\n', '\n');
    lemma_some_piece(y, '\n', '\n');
    let parts = split_text(x.push('\n') + y, '\n', '\n');
    let rest = split_text(y, '\n', '\n');
    assert(parts == seq![x] + rest);
    assert(parts.last() == rest.last());
    assert(parts.drop_last() =~= seq![x] + rest.drop_last());
    assert(lines_text(x) =~= if x.len() == 0 {
        Seq::<Seq<char>>::empty()
    } else {
        seq![x]
    });
    assert(lines_text(x.push('\n') + y) =~= seq![without_return(x)] + lines_text(y));
}

/// The fields of a text: it is cut at the first separators, as long as
/// fields are left, and the last field keeps the rest.
pub proof fn lemma_fields_lie_between_separators(x: Seq<char>, y: Seq<char>, c: char, n: nat)
    requires
        n >= 1,
        forall|i: int| 0 <= i < x.len() ==> #[trigger] x[i] != c,
    ensures
        fields_text(x, c, n) == seq![x],
        fields_text(y, c, 1) == seq![y],
        n >= 2 ==> fields_text(x.push(c) + y, c, n) == seq![x] + fields_text(y, c, (n - 1) as nat),
{
    lemma_first_place(x, c);
    let whole = x.push(c) + y;
    lemma_first_place(whole, c);
    assert(whole[x.len() as int] == c);
    assert(first_place(whole, c) == x.len()) by {
        let at = first_place(whole, c);
        if at < x.len() {
            assert(whole[at] == x[at]);
        }
    }
    assert(whole.subrange(0, x.len() as int) =~= x);
    assert(whole.subrange(x.len() as int + 1, whole.len() as int) =~= y);
}

/// The order of texts is that of a dictionary: a beginning comes before what
/// it begins, and otherwise the first difference counts.
pub proof fn lemma_first_difference_counts(
    p: Seq<char>,
    c: char,
    d: char,
    x: Seq<char>,
    y: Seq<char>,
)
    ensures
        text_lt(p, p.push(c) + x),
        !text_lt(p.push(c) + x, p),
        c < d ==> text_lt(p.push(c) + x, p.push(d) + y),
    decreases p.len(),
{
    let a = p.push(c) + x;
    let b = p.push(d) + y;
    if p.len() > 0 {
        let rest = p.drop_first();
        lemma_first_difference_counts(rest, c, d, x, y);
        assert(a.drop_first() =~= rest.push(c) + x);
        assert(b.drop_first() =~= rest.push(d) + y);
    }
}

/// Parts are glued in their order, with the separator between neighbours
/// alone.
pub proof fn lemma_parts_are_glued_in_order(parts: Seq<Seq<char>>, more: Seq<char>, sep: Seq<char>)
    ensures
        joined(Seq::empty(), sep) == Seq::<char>::empty(),
        joined(seq![more], sep) == more,
        parts.len() > 0 ==> joined(parts.push(more), sep) == joined(parts, sep) + sep + more,
{
    assert(parts.push(more).drop_last() =~= parts);
}

/// A number is read digit by digit: a further digit makes it ten times as
/// large and adds its own value, as far as 64 bits hold it; a sign of its
/// own changes nothing, and anything that is no digit makes it no number.
pub proof fn lemma_numbers_are_read_digit_by_digit(s: Seq<char>, c: char, n: u64)
    requires
        parsed_u64(s) == Some(n),
        s.len() > 0 && s[0] != '+',
    ensures
        '0' <= c <= '9' && n * 10 + (c as u32 - '0' as u32) <= u64::MAX ==> parsed_u64(s.push(c))
            == Some((n * 10 + (c as u32 - '0' as u32)) as u64),
        '0' <= c <= '9' && n * 10 + (c as u32 - '0' as u32) > u64::MAX ==> parsed_u64(s.push(c))
            is None,
        !('0' <= c <= '9') ==> parsed_u64(s.push(c)) is None,
        '0' <= c <= '9' ==> parsed_u64(seq![c]) == Some((c as u32 - '0' as u32) as u64),
        parsed_u64(seq!['+'] + s) == Some(n),
        parsed_u64(Seq::empty()) is None,
{
    let longer = s.push(c);
    assert(longer.drop_last() =~= s);
    assert(longer.last() == c);
    if '0' <= c <= '9' {
        assert forall|i: int| 0 <= i < longer.len() implies is_digit(#[trigger] longer[i]) by {
            if i < s.len() {
                assert(longer[i] == s[i]);
            }
        }
        let one = seq![c];
        assert(one.drop_last() =~= Seq::empty());
        reveal_with_fuel(digits_value, 2);
        assert forall|i: int| 0 <= i < one.len() implies is_digit(#[trigger] one[i]) by {}
    } else {
        assert(!is_digit(longer[s.len() as int]));
    }
    let signed = seq!['+'] + s;
    assert(signed.drop_first() =~= s);
}

/// Numbers are written so that they are told apart, without signs and
/// without zeros before them.
pub proof fn lemma_numbers_are_written_apart(n: u64, m: u64)
    ensures
        decimal_text(n as nat) == decimal_text(m as nat) ==> n == m,
        decimal_text(n as nat).len() > 0,
        n >= 10 ==> decimal_text(n as nat) == decimal_text((n / 10) as nat) + decimal_text(
            (n % 10) as nat,
        ),
        n < 10 ==> decimal_text(n as nat).len() == 1,
{
    lemma_decimal_round_trip(n);
    lemma_decimal_round_trip(m);
    if n >= 10 {
        assert(decimal_text(n as nat) =~= decimal_text((n / 10) as nat) + decimal_text(
            (n % 10) as nat,
        ));
    }
}

/// A signed number is an unsigned one with or without a minus before it, as
/// far as 64 bits hold it.
pub proof fn lemma_signed_numbers_are_read_with_their_sign(s: Seq<char>, n: u64)
    requires
        parsed_u64(s) == Some(n),
        s.len() > 0 && s[0] != '+',
    ensures
        n <= i64::MAX ==> parsed_i64(s) == Some(n as i64),
        n > i64::MAX ==> parsed_i64(s) is None,
        -n >= i64::MIN ==> parsed_i64(seq!['-'] + s) == Some((-n) as i64),
        n <= i64::MAX ==> parsed_i64(seq!['+'] + s) == Some(n as i64),
{
    assert(is_digit(s[0]));
    assert((seq!['-'] + s).drop_first() =~= s);
    assert((seq!['+'] + s).drop_first() =~= s);
}

} // verus!
