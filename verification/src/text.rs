//! Character-level text helpers shared by every parser in the crate.
//!
//! Everything here works on the characters of a string (`Seq<char>` in
//! specifications, `Vec<char>` at run time); the parsers built on it state
//! their contracts over the spec functions defined below.
use vstd::prelude::*;

verus! {

broadcast use vstd::string::group_string_axioms;

// ───────────────────────────── character classes ─────────────────────────────

/// Unicode `White_Space`, the set `char::is_whitespace` answers for.
pub open spec fn is_ws(c: char) -> bool {
    let u = c as u32;
    (0x09 <= u && u <= 0x0d) || u == 0x20 || u == 0x85 || u == 0xa0 || u == 0x1680
        || (0x2000 <= u && u <= 0x200a) || u == 0x2028 || u == 0x2029 || u == 0x202f
        || u == 0x205f || u == 0x3000
}

/// ASCII whitespace as `char::is_ascii_whitespace` defines it.
pub open spec fn is_ascii_ws(c: char) -> bool {
    c == ' ' || c == '\t' || c == '\n' || c == '\x0C' || c == '\r'
}

/// Whitespace under either rule: `ascii` picks the ASCII set.
pub open spec fn is_sep(c: char, ascii: bool) -> bool {
    if ascii { is_ascii_ws(c) } else { is_ws(c) }
}

pub fn char_is_whitespace(c: char) -> (b: bool)
    ensures
        b == is_ws(c),
{
    let u = c as u32;
    (0x09 <= u && u <= 0x0d) || u == 0x20 || u == 0x85 || u == 0xa0 || u == 0x1680
        || (0x2000 <= u && u <= 0x200a) || u == 0x2028 || u == 0x2029 || u == 0x202f
        || u == 0x205f || u == 0x3000
}

pub fn char_is_sep(c: char, ascii: bool) -> (b: bool)
    ensures
        b == is_sep(c, ascii),
{
    if ascii {
        c == ' ' || c == '\t' || c == '\n' || c == '\x0C' || c == '\r'
    } else {
        char_is_whitespace(c)
    }
}

/// `char::to_ascii_lowercase`.
pub open spec fn lower_char(c: char) -> char {
    if 'A' <= c && c <= 'Z' {
        ((c as u32) + 32) as char
    } else {
        c
    }
}

pub fn to_lower_char(c: char) -> (r: char)
    ensures
        r == lower_char(c),
{
    if 'A' <= c && c <= 'Z' {
        let u = (c as u32) + 32;
        assert(0x61 <= u <= 0x7a);
        char_from_ascii(u)
    } else {
        c
    }
}

/// The character an ASCII code point names.
fn char_from_ascii(u: u32) -> (c: char)
    requires
        u < 0x80,
    ensures
        c == u as char,
{
    (u as u8) as char
}

/// `str::to_ascii_lowercase`, over characters.
pub open spec fn lower(s: Seq<char>) -> Seq<char> {
    Seq::new(s.len(), |i: int| lower_char(s[i]))
}

/// Whether two texts are equal once ASCII letters are folded to lower case
/// (`eq_ignore_ascii_case`).
pub open spec fn eq_ic(a: Seq<char>, b: Seq<char>) -> bool {
    lower(a) == lower(b)
}

pub fn lower_vec(s: &Vec<char>) -> (r: Vec<char>)
    ensures
        r@ == lower(s@),
{
    let mut r: Vec<char> = Vec::new();
    let mut i: usize = 0;
    while i < s.len()
        invariant
            i <= s.len(),
            r@ == lower(s@.subrange(0, i as int)),
        decreases s.len() - i,
    {
        r.push(to_lower_char(s[i]));
        i = i + 1;
        assert(r@ =~= lower(s@.subrange(0, i as int)));
    }
    assert(s@.subrange(0, s.len() as int) =~= s@);
    r
}

// ───────────────────────────── conversions ─────────────────────────────

/// The characters of `s`, in order.
pub fn chars_of(s: &str) -> (v: Vec<char>)
    ensures
        v@ == s@,
{
    let mut v: Vec<char> = Vec::new();
    for c in it: s.chars()
        invariant
            v@ == it.seq().take(it.index() as int),
            it.seq() == s@,
    {
        v.push(c);
    }
    v
}

/// Append one character to a `String` (`String::push`).
#[verifier::external_body]
pub(crate) fn push_char(s: &mut String, c: char)
    ensures
        final(s)@ == old(s)@.push(c),
{
    s.push(c);
}

/// Append a string slice (`String::push_str`).
#[verifier::external_body]
pub(crate) fn push_str(s: &mut String, t: &str)
    ensures
        final(s)@ == old(s)@ + t@,
{
    s.push_str(t);
}

/// A `String` holding exactly the characters of `v`.
pub fn string_of(v: &Vec<char>) -> (s: String)
    ensures
        s@ == v@,
{
    let mut s = String::new();
    let mut i: usize = 0;
    while i < v.len()
        invariant
            i <= v.len(),
            s@ == v@.subrange(0, i as int),
        decreases v.len() - i,
    {
        push_char(&mut s, v[i]);
        i = i + 1;
        assert(s@ =~= v@.subrange(0, i as int));
    }
    assert(v@.subrange(0, v.len() as int) =~= v@);
    s
}

/// A `String` holding the characters `v[from..to]`.
pub fn string_of_range(v: &Vec<char>, from: usize, to: usize) -> (s: String)
    requires
        from <= to <= v.len(),
    ensures
        s@ == v@.subrange(from as int, to as int),
{
    let mut s = String::new();
    let mut i: usize = from;
    while i < to
        invariant
            from <= i <= to <= v.len(),
            s@ == v@.subrange(from as int, i as int),
        decreases to - i,
    {
        push_char(&mut s, v[i]);
        i = i + 1;
        assert(s@ =~= v@.subrange(from as int, i as int));
    }
    s
}

/// Append `v[from..to]` to `out`.
pub fn extend_range(out: &mut Vec<char>, v: &Vec<char>, from: usize, to: usize)
    requires
        from <= to <= v.len(),
    ensures
        final(out)@ == old(out)@ + v@.subrange(from as int, to as int),
{
    let ghost start = out@;
    let mut i: usize = from;
    while i < to
        invariant
            from <= i <= to <= v.len(),
            out@ == start + v@.subrange(from as int, i as int),
        decreases to - i,
    {
        out.push(v[i]);
        i = i + 1;
        assert(out@ =~= start + v@.subrange(from as int, i as int));
    }
}

/// Append every character of `s` to `out`.
pub fn extend_str(out: &mut Vec<char>, s: &str)
    ensures
        final(out)@ == old(out)@ + s@,
{
    let v = chars_of(s);
    extend_range(out, &v, 0, v.len());
    assert(v@.subrange(0, v.len() as int) =~= v@);
}

// ───────────────────────────── comparisons ─────────────────────────────

/// Whether `v[from..to]` spells exactly `lit`.
pub fn range_eq(v: &Vec<char>, from: usize, to: usize, lit: &str) -> (b: bool)
    requires
        from <= to <= v.len(),
    ensures
        b == (v@.subrange(from as int, to as int) == lit@),
{
    let l = chars_of(lit);
    if to - from != l.len() {
        return false;
    }
    let mut i: usize = 0;
    while i < l.len()
        invariant
            l@ == lit@,
            to - from == l.len(),
            from <= to <= v.len(),
            i <= l.len(),
            forall|j: int| 0 <= j < i ==> v@[from + j] == l@[j],
        decreases l.len() - i,
    {
        if v[from + i] != l[i] {
            assert(v@.subrange(from as int, to as int)[i as int] != lit@[i as int]);
            return false;
        }
        i = i + 1;
    }
    assert(v@.subrange(from as int, to as int) =~= lit@);
    true
}

/// Whether all of `v` spells exactly `lit`.
pub fn vec_eq(v: &Vec<char>, lit: &str) -> (b: bool)
    ensures
        b == (v@ == lit@),
{
    assert(v@.subrange(0, v.len() as int) =~= v@);
    range_eq(v, 0, v.len(), lit)
}

/// Whether `v[from..]` starts with `lit`.
pub fn starts_with_at(v: &Vec<char>, from: usize, lit: &str) -> (b: bool)
    requires
        from <= v.len(),
    ensures
        b == (lit@.len() <= v@.len() - from && v@.subrange(from as int, from + lit@.len())
            == lit@),
{
    let n = lit.unicode_len();
    if n > v.len() - from {
        return false;
    }
    range_eq(v, from, from + n, lit)
}

/// Whether two character sequences are equal.
pub fn seq_eq(a: &Vec<char>, b: &Vec<char>) -> (r: bool)
    ensures
        r == (a@ == b@),
{
    if a.len() != b.len() {
        return false;
    }
    let mut i: usize = 0;
    while i < a.len()
        invariant
            a.len() == b.len(),
            i <= a.len(),
            forall|j: int| 0 <= j < i ==> a@[j] == b@[j],
        decreases a.len() - i,
    {
        if a[i] != b[i] {
            return false;
        }
        i = i + 1;
    }
    assert(a@ =~= b@);
    true
}

// ───────────────────────────── numbers ─────────────────────────────

pub open spec fn digit_char(d: nat) -> char
    recommends
        d < 10,
{
    ((d + 48) as u32) as char
}

/// Decimal digits of `n`, most significant first, no sign, no padding.
pub open spec fn decimal(n: nat) -> Seq<char>
    decreases n,
{
    if n < 10 {
        seq![digit_char(n)]
    } else {
        decimal(n / 10).push(digit_char(n % 10))
    }
}

/// Append the decimal spelling of `n` to `out`.
pub fn push_decimal(out: &mut Vec<char>, n: u128)
    ensures
        final(out)@ == old(out)@ + decimal(n as nat),
    decreases n,
{
    if n >= 10 {
        push_decimal(out, n / 10);
    }
    let d = n % 10;
    out.push(char_from_ascii((d + 48) as u32));
    assert(out@ =~= old(out)@ + decimal(n as nat));
}

/// The value of a run of ASCII digits.
pub open spec fn digits_value(s: Seq<char>) -> nat
    decreases s.len(),
{
    if s.len() == 0 {
        0
    } else {
        digits_value(s.drop_last()) * 10 + ((s.last() as u32) - 48) as nat
    }
}

pub open spec fn is_digit(c: char) -> bool {
    '0' <= c && c <= '9'
}

pub open spec fn all_digits(s: Seq<char>) -> bool {
    forall|i: int| 0 <= i < s.len() ==> is_digit(#[trigger] s[i])
}

/// What `u32::from_str` answers: an optional `+`, then one or more ASCII
/// digits whose value fits.
pub open spec fn parse_u32_spec(s: Seq<char>) -> Option<u32> {
    let body = if s.len() > 0 && s[0] == '+' { s.drop_first() } else { s };
    if body.len() > 0 && all_digits(body) && digits_value(body) <= u32::MAX {
        Some(digits_value(body) as u32)
    } else {
        None
    }
}

proof fn lemma_digits_value_push(s: Seq<char>, c: char)
    ensures
        digits_value(s.push(c)) == digits_value(s) * 10 + ((c as u32) - 48) as nat,
{
    assert(s.push(c).drop_last() =~= s);
}

proof fn lemma_digits_value_mono(s: Seq<char>, i: int)
    requires
        0 <= i <= s.len(),
        all_digits(s),
    ensures
        digits_value(s.take(i)) <= digits_value(s),
    decreases s.len() - i,
{
    if i < s.len() {
        lemma_digits_value_mono(s, i + 1);
        assert(s.take(i + 1) =~= s.take(i).push(s[i]));
        lemma_digits_value_push(s.take(i), s[i]);
    } else {
        assert(s.take(i) =~= s);
    }
}

/// Digits `v[from..to]` as a number, or `None` past `limit` or on a non-digit.
fn digits_in(v: &Vec<char>, from: usize, to: usize, limit: u64) -> (r: Option<u64>)
    requires
        from < to <= v.len(),
    ensures
        match r {
            Some(n) => all_digits(v@.subrange(from as int, to as int)) && n == digits_value(
                v@.subrange(from as int, to as int),
            ) && n <= limit,
            None => !(all_digits(v@.subrange(from as int, to as int)) && digits_value(
                v@.subrange(from as int, to as int),
            ) <= limit),
        },
{
    let ghost s = v@.subrange(from as int, to as int);
    let mut acc: u64 = 0;
    let mut i: usize = from;
    while i < to
        invariant
            from <= i <= to <= v.len(),
            s == v@.subrange(from as int, to as int),
            all_digits(s.take(i - from)),
            acc == digits_value(s.take(i - from)),
            acc <= limit,
        decreases to - i,
    {
        let c = v[i];
        assert(s[i - from] == c);
        if !('0' <= c && c <= '9') {
            assert(!all_digits(s));
            return None;
        }
        let d = (c as u32 - 48) as u64;
        assert(s.take(i - from + 1) =~= s.take(i - from).push(c));
        proof {
            lemma_digits_value_push(s.take(i - from), c);
        }
        if d > limit || acc > (limit - d) / 10 {
            proof {
                assert(all_digits(s) ==> digits_value(s.take(i - from + 1)) <= digits_value(s))
                    by {
                    if all_digits(s) {
                        lemma_digits_value_mono(s, i - from + 1);
                    }
                };
                assert(acc * 10 + d > limit) by (nonlinear_arith)
                    requires
                        d > limit || acc > (limit - d) / 10,
                        d <= 9,
                ;
            }
            return None;
        }
        assert(acc * 10 + d <= limit) by (nonlinear_arith)
            requires
                acc <= (limit - d) / 10,
                d <= 9,
                d <= limit,
        ;
        acc = acc * 10 + d;
        i = i + 1;
    }
    assert(s.take(to - from) =~= s);
    Some(acc)
}

/// `u32::from_str` over `v[from..to]`.
pub fn parse_u32_in(v: &Vec<char>, from: usize, to: usize) -> (r: Option<u32>)
    requires
        from <= to <= v.len(),
    ensures
        r == parse_u32_spec(v@.subrange(from as int, to as int)),
{
    let ghost s = v@.subrange(from as int, to as int);
    let body = if from < to && v[from] == '+' {
        from + 1
    } else {
        from
    };
    assert(s.len() > 0 && s[0] == '+' ==> s.drop_first() =~= v@.subrange(body as int, to as int));
    assert(!(s.len() > 0 && s[0] == '+') ==> s =~= v@.subrange(body as int, to as int));
    if body == to {
        return None;
    }
    match digits_in(v, body, to, 0xffff_ffff) {
        Some(n) => Some(n as u32),
        None => None,
    }
}

/// What `usize::from_str` answers: an optional `+`, then one or more ASCII
/// digits whose value fits.
pub open spec fn parse_usize_spec(s: Seq<char>) -> Option<usize> {
    let body = if s.len() > 0 && s[0] == '+' { s.drop_first() } else { s };
    if body.len() > 0 && all_digits(body) && digits_value(body) <= usize::MAX {
        Some(digits_value(body) as usize)
    } else {
        None
    }
}

/// `usize::from_str` over `v[from..to]`.
pub fn parse_usize_in(v: &Vec<char>, from: usize, to: usize) -> (r: Option<usize>)
    requires
        from <= to <= v.len(),
    ensures
        r == parse_usize_spec(v@.subrange(from as int, to as int)),
{
    let ghost s = v@.subrange(from as int, to as int);
    let body = if from < to && v[from] == '+' {
        from + 1
    } else {
        from
    };
    assert(s.len() > 0 && s[0] == '+' ==> s.drop_first() =~= v@.subrange(body as int, to as int));
    assert(!(s.len() > 0 && s[0] == '+') ==> s =~= v@.subrange(body as int, to as int));
    if body == to {
        return None;
    }
    match digits_in(v, body, to, usize::MAX as u64) {
        Some(n) => Some(n as usize),
        None => None,
    }
}

/// What `i32::from_str` answers: an optional sign, then one or more ASCII
/// digits whose signed value fits.
pub open spec fn parse_i32_spec(s: Seq<char>) -> Option<i32> {
    let negative = s.len() > 0 && s[0] == '-';
    let body = if s.len() > 0 && (s[0] == '+' || s[0] == '-') {
        s.drop_first()
    } else {
        s
    };
    if body.len() > 0 && all_digits(body) {
        if negative && digits_value(body) <= 0x8000_0000 {
            Some((0 - digits_value(body)) as i32)
        } else if !negative && digits_value(body) <= 0x7fff_ffff {
            Some(digits_value(body) as i32)
        } else {
            None
        }
    } else {
        None
    }
}

/// `i32::from_str` over `v[from..to]`.
pub fn parse_i32_in(v: &Vec<char>, from: usize, to: usize) -> (r: Option<i32>)
    requires
        from <= to <= v.len(),
    ensures
        r == parse_i32_spec(v@.subrange(from as int, to as int)),
{
    let ghost s = v@.subrange(from as int, to as int);
    let negative = from < to && v[from] == '-';
    let body = if from < to && (v[from] == '+' || v[from] == '-') {
        from + 1
    } else {
        from
    };
    assert(s.len() > 0 && (s[0] == '+' || s[0] == '-') ==> s.drop_first() =~= v@.subrange(
        body as int,
        to as int,
    ));
    assert(!(s.len() > 0 && (s[0] == '+' || s[0] == '-')) ==> s =~= v@.subrange(
        body as int,
        to as int,
    ));
    if body == to {
        return None;
    }
    let limit: u64 = if negative {
        0x8000_0000
    } else {
        0x7fff_ffff
    };
    match digits_in(v, body, to, limit) {
        Some(n) => if negative {
            Some((0 - (n as i64)) as i32)
        } else {
            Some(n as i32)
        },
        None => None,
    }
}

/// The decimal spelling of a signed number, `-` first when it is negative.
pub open spec fn signed_decimal(n: int) -> Seq<char> {
    if n < 0 {
        seq!['-'] + decimal((0 - n) as nat)
    } else {
        decimal(n as nat)
    }
}

/// `i32::to_string`.
pub fn i32_text(n: i32) -> (s: String)
    ensures
        s@ == signed_decimal(n as int),
{
    let mut v: Vec<char> = Vec::new();
    if n < 0 {
        v.push('-');
        let m: u64 = (0 - (n as i64)) as u64;
        push_decimal(&mut v, m as u128);
        assert(v@ =~= seq!['-'] + decimal((0 - n) as nat));
    } else {
        push_decimal(&mut v, n as u128);
        assert(v@ =~= decimal(n as nat));
    }
    string_of(&v)
}

} // verus!

verus! {

// ───────────────────────────── whitespace splitting ─────────────────────────────

/// `s` without its leading separators.
pub open spec fn skip_sep(s: Seq<char>, ascii: bool) -> Seq<char>
    decreases s.len(),
{
    if s.len() > 0 && is_sep(s[0], ascii) {
        skip_sep(s.drop_first(), ascii)
    } else {
        s
    }
}

/// Length of the leading run of non-separators of `s`.
pub open spec fn word_len(s: Seq<char>, ascii: bool) -> nat
    decreases s.len(),
{
    if s.len() == 0 || is_sep(s[0], ascii) {
        0
    } else {
        1 + word_len(s.drop_first(), ascii)
    }
}

/// Skipping separators never lengthens a text, and stops at a
/// non-separator.
pub proof fn lemma_skip_sep_shorter(s: Seq<char>, ascii: bool)
    ensures
        skip_sep(s, ascii).len() <= s.len(),
        skip_sep(s, ascii).len() > 0 ==> !is_sep(skip_sep(s, ascii)[0], ascii),
    decreases s.len(),
{
    if s.len() > 0 && is_sep(s[0], ascii) {
        lemma_skip_sep_shorter(s.drop_first(), ascii);
    }
}

/// A word fits in its text, and a text that starts with a non-separator
/// starts with a word.
pub proof fn lemma_word_len_bound(s: Seq<char>, ascii: bool)
    ensures
        word_len(s, ascii) <= s.len(),
        s.len() > 0 && !is_sep(s[0], ascii) ==> word_len(s, ascii) >= 1,
    decreases s.len(),
{
    if s.len() > 0 && !is_sep(s[0], ascii) {
        lemma_word_len_bound(s.drop_first(), ascii);
    }
}

/// The maximal runs of non-separators of `s`, in order (`split_whitespace`
/// when `ascii` is false, `split_ascii_whitespace` when it is true).
pub open spec fn words(s: Seq<char>, ascii: bool) -> Seq<Seq<char>>
    decreases s.len(),
{
    let t = skip_sep(s, ascii);
    if t.len() == 0 {
        seq![]
    } else {
        let n = word_len(t, ascii);
        proof {
            lemma_skip_sep_shorter(s, ascii);
            lemma_word_len_bound(t, ascii);
        }
        seq![t.take(n as int)] + words(t.skip(n as int), ascii)
    }
}

/// Skipping a run of separators `[i, j)` that ends at a non-separator (or the
/// end) is what `skip_sep` does.
pub proof fn lemma_skip_sep_run(s: Seq<char>, ascii: bool, i: int, j: int)
    requires
        0 <= i <= j <= s.len(),
        forall|k: int| i <= k < j ==> is_sep(#[trigger] s[k], ascii),
        j == s.len() || !is_sep(s[j], ascii),
    ensures
        skip_sep(s.skip(i), ascii) == s.skip(j),
    decreases j - i,
{
    if i < j {
        assert(s.skip(i).drop_first() =~= s.skip(i + 1));
        lemma_skip_sep_run(s, ascii, i + 1, j);
    } else {
        assert(s.skip(i) =~= s.skip(j));
    }
}

/// A run of non-separators `[i, j)` ending at a separator (or the end) is one
/// word.
pub proof fn lemma_word_len_run(s: Seq<char>, ascii: bool, i: int, j: int)
    requires
        0 <= i <= j <= s.len(),
        forall|k: int| i <= k < j ==> !is_sep(#[trigger] s[k], ascii),
        j == s.len() || is_sep(s[j], ascii),
    ensures
        word_len(s.skip(i), ascii) == j - i,
    decreases j - i,
{
    if i < j {
        assert(s.skip(i).drop_first() =~= s.skip(i + 1));
        lemma_word_len_run(s, ascii, i + 1, j);
    }
}

/// One step of `words` from position `i`: separators up to `j`, then a word
/// `[j, k)`.
pub proof fn lemma_words_step(s: Seq<char>, ascii: bool, i: int, j: int, k: int)
    requires
        0 <= i <= j < k <= s.len(),
        forall|m: int| i <= m < j ==> is_sep(#[trigger] s[m], ascii),
        forall|m: int| j <= m < k ==> !is_sep(#[trigger] s[m], ascii),
        k == s.len() || is_sep(s[k], ascii),
    ensures
        words(s.skip(i), ascii) == seq![s.subrange(j, k)] + words(s.skip(k), ascii),
{
    lemma_skip_sep_run(s, ascii, i, j);
    lemma_word_len_run(s, ascii, j, k);
    assert(s.skip(j).take(k - j) =~= s.subrange(j, k));
    assert(s.skip(j).skip(k - j) =~= s.skip(k));
}

/// No word is left once only separators remain.
pub proof fn lemma_words_end(s: Seq<char>, ascii: bool, i: int)
    requires
        0 <= i <= s.len(),
        forall|m: int| i <= m < s.len() ==> is_sep(#[trigger] s[m], ascii),
    ensures
        words(s.skip(i), ascii) == Seq::<Seq<char>>::empty(),
{
    lemma_skip_sep_run(s, ascii, i, s.len() as int);
    assert(s.skip(s.len() as int) =~= Seq::<char>::empty());
}

/// A half-open range of character positions.
pub struct Span {
    pub start: usize,
    pub end: usize,
}

/// The characters a list of spans covers, one sequence per span.
pub open spec fn spans_text(s: Seq<char>, spans: Seq<Span>) -> Seq<Seq<char>> {
    Seq::new(spans.len(), |i: int| s.subrange(spans[i].start as int, spans[i].end as int))
}

pub open spec fn spans_valid(s: Seq<char>, spans: Seq<Span>) -> bool {
    forall|i: int|
        0 <= i < spans.len() ==> #[trigger] spans[i].start < spans[i].end && spans[i].end
            <= s.len()
}

/// Where each word of `v` starts and ends.
pub fn word_spans(v: &Vec<char>, ascii: bool) -> (spans: Vec<Span>)
    ensures
        spans_valid(v@, spans@),
        spans_text(v@, spans@) == words(v@, ascii),
{
    let mut spans: Vec<Span> = Vec::new();
    let mut i: usize = 0;
    let n = v.len();
    assert(v@.skip(0) =~= v@);
    while i < n
        invariant
            n == v.len(),
            i <= n,
            spans_valid(v@, spans@),
            spans_text(v@, spans@) + words(v@.skip(i as int), ascii) == words(v@, ascii),
        decreases n - i,
    {
        let mut j = i;
        while j < n && char_is_sep(v[j], ascii)
            invariant
                i <= j <= n,
                n == v.len(),
                forall|m: int| i <= m < j ==> is_sep(#[trigger] v@[m], ascii),
            decreases n - j,
        {
            j = j + 1;
        }
        if j == n {
            proof {
                lemma_words_end(v@, ascii, i as int);
            }
            assert(spans_text(v@, spans@) + Seq::<Seq<char>>::empty() =~= spans_text(
                v@,
                spans@,
            ));
            i = n;
            assert(v@.skip(n as int) =~= Seq::<char>::empty());
            assert(words(Seq::<char>::empty(), ascii) =~= Seq::<Seq<char>>::empty());
        } else {
            let mut k = j + 1;
            while k < n && !char_is_sep(v[k], ascii)
                invariant
                    j < k <= n,
                    n == v.len(),
                    !is_sep(v@[j as int], ascii),
                    forall|m: int| j <= m < k ==> !is_sep(#[trigger] v@[m], ascii),
                decreases n - k,
            {
                k = k + 1;
            }
            proof {
                lemma_words_step(v@, ascii, i as int, j as int, k as int);
            }
            let ghost old_spans = spans@;
            spans.push(Span { start: j, end: k });
            assert forall|m: int| 0 <= m < spans@.len() implies #[trigger] spans@[m].start
                < spans@[m].end && spans@[m].end <= v@.len() by {
                if m < old_spans.len() {
                    assert(spans@[m] == old_spans[m]);
                }
            }
            assert(spans_text(v@, spans@) =~= spans_text(v@, old_spans) + seq![
                v@.subrange(j as int, k as int),
            ]);
            i = k;
        }
    }
    assert(v@.skip(n as int) =~= Seq::<char>::empty());
    assert(words(Seq::<char>::empty(), ascii) =~= Seq::<Seq<char>>::empty());
    assert(spans_text(v@, spans@) + Seq::<Seq<char>>::empty() =~= spans_text(v@, spans@));
    spans
}

} // verus!

verus! {

// ───────────────────────────── searching ─────────────────────────────

/// Position of the first `c` in `s`.
pub open spec fn find_char(s: Seq<char>, c: char) -> Option<nat>
    decreases s.len(),
{
    if s.len() == 0 {
        None
    } else if s[0] == c {
        Some(0)
    } else {
        match find_char(s.drop_first(), c) {
            Some(i) => Some(i + 1),
            None => None,
        }
    }
}

/// `c` first occurs at `j` in what follows `i` when it sits at `j` and
/// nowhere in `[i, j)`.
pub proof fn lemma_find_char_at(s: Seq<char>, c: char, i: int, j: int)
    requires
        0 <= i <= j < s.len(),
        s[j] == c,
        forall|k: int| i <= k < j ==> #[trigger] s[k] != c,
    ensures
        find_char(s.skip(i), c) == Some((j - i) as nat),
    decreases j - i,
{
    if i < j {
        assert(s.skip(i).drop_first() =~= s.skip(i + 1));
        lemma_find_char_at(s, c, i + 1, j);
    }
}

/// `c` does not occur in what follows `i` when no position there holds it.
pub proof fn lemma_find_char_none(s: Seq<char>, c: char, i: int)
    requires
        0 <= i <= s.len(),
        forall|k: int| i <= k < s.len() ==> #[trigger] s[k] != c,
    ensures
        find_char(s.skip(i), c) == None::<nat>,
    decreases s.len() - i,
{
    if i < s.len() {
        assert(s.skip(i).drop_first() =~= s.skip(i + 1));
        lemma_find_char_none(s, c, i + 1);
    }
}

/// The characterisation of `find_char`: the index it answers holds `c` and
/// nothing before it does; `None` means `c` does not occur.
pub proof fn lemma_find_char_spec(s: Seq<char>, c: char)
    ensures
        match find_char(s, c) {
            Some(i) => i < s.len() && s[i as int] == c && forall|k: int|
                0 <= k < i ==> #[trigger] s[k] != c,
            None => forall|k: int| 0 <= k < s.len() ==> #[trigger] s[k] != c,
        },
    decreases s.len(),
{
    if s.len() > 0 && s[0] != c {
        lemma_find_char_spec(s.drop_first(), c);
        match find_char(s.drop_first(), c) {
            Some(i) => {
                assert forall|k: int| 0 <= k < i + 1 implies #[trigger] s[k] != c by {
                    if k > 0 {
                        assert(s[k] == s.drop_first()[k - 1]);
                    }
                }
            },
            None => {
                assert forall|k: int| 0 <= k < s.len() implies #[trigger] s[k] != c by {
                    if k > 0 {
                        assert(s[k] == s.drop_first()[k - 1]);
                    }
                }
            },
        }
    }
}

/// First position at or after `from` holding `c`.
pub fn find_char_from(v: &Vec<char>, from: usize, c: char) -> (r: Option<usize>)
    requires
        from <= v.len(),
    ensures
        match find_char(v@.skip(from as int), c) {
            Some(k) => r.is_some() && r.unwrap() == from + k,
            None => r.is_none(),
        },
        match r {
            Some(i) => from <= i < v.len() && v@[i as int] == c && forall|k: int|
                from <= k < i ==> #[trigger] v@[k] != c,
            None => forall|k: int| from <= k < v.len() ==> #[trigger] v@[k] != c,
        },
{
    let mut i = from;
    while i < v.len()
        invariant
            from <= i <= v.len(),
            forall|k: int| from <= k < i ==> #[trigger] v@[k] != c,
        decreases v.len() - i,
    {
        if v[i] == c {
            proof {
                lemma_find_char_at(v@, c, from as int, i as int);
            }
            return Some(i);
        }
        i = i + 1;
    }
    proof {
        lemma_find_char_none(v@, c, from as int);
    }
    None
}

// ───────────────────────────── joining ─────────────────────────────

/// `parts` joined with `sep` between neighbours (`[T]::join`).
pub open spec fn join(parts: Seq<Seq<char>>, sep: Seq<char>) -> Seq<char>
    decreases parts.len(),
{
    if parts.len() == 0 {
        seq![]
    } else if parts.len() == 1 {
        parts[0]
    } else {
        join(parts.drop_last(), sep) + sep + parts.last()
    }
}

} // verus!

verus! {

// ───────────────────────────── trimming ─────────────────────────────

/// `s` without its trailing separators.
pub open spec fn trim_end_sep(s: Seq<char>, ascii: bool) -> Seq<char>
    decreases s.len(),
{
    if s.len() > 0 && is_sep(s.last(), ascii) {
        trim_end_sep(s.drop_last(), ascii)
    } else {
        s
    }
}

/// `str::trim`: leading and trailing Unicode whitespace removed.
pub open spec fn trim(s: Seq<char>) -> Seq<char> {
    trim_end_sep(skip_sep(s, false), false)
}

/// Dropping a trailing run of separators `[j, k)` that follows a
/// non-separator (or the start) is what `trim_end_sep` does.
pub proof fn lemma_trim_end_run(s: Seq<char>, ascii: bool, j: int, k: int)
    requires
        0 <= j <= k <= s.len(),
        forall|m: int| j <= m < k ==> is_sep(#[trigger] s[m], ascii),
        j == 0 || !is_sep(s[j - 1], ascii),
    ensures
        trim_end_sep(s.take(k), ascii) == s.take(j),
    decreases k - j,
{
    if j < k {
        assert(s.take(k).drop_last() =~= s.take(k - 1));
        lemma_trim_end_run(s, ascii, j, k - 1);
    }
}

/// The trimmed part of `v` is `v[start..end]`.
pub fn trim_bounds(v: &Vec<char>) -> (r: (usize, usize))
    ensures
        r.0 <= r.1 <= v.len(),
        trim(v@) == v@.subrange(r.0 as int, r.1 as int),
        r.0 < r.1 ==> !is_ws(v@[r.0 as int]) && !is_ws(v@[r.1 - 1]),
{
    let n = v.len();
    let mut i: usize = 0;
    while i < n && char_is_whitespace(v[i])
        invariant
            i <= n == v.len(),
            forall|m: int| 0 <= m < i ==> is_ws(#[trigger] v@[m]),
        decreases n - i,
    {
        i = i + 1;
    }
    let mut j: usize = n;
    while j > i && char_is_whitespace(v[j - 1])
        invariant
            i <= j <= n == v.len(),
            forall|m: int| j <= m < n ==> is_ws(#[trigger] v@[m]),
        decreases j,
    {
        j = j - 1;
    }
    proof {
        lemma_skip_sep_run(v@, false, 0, i as int);
        assert(v@.skip(0) =~= v@);
        let t = v@.skip(i as int);
        assert forall|m: int| j - i <= m < t.len() implies is_sep(#[trigger] t[m], false) by {
            assert(t[m] == v@[i + m]);
        }
        if j > i {
            assert(t[j - i - 1] == v@[j - 1]);
        }
        lemma_trim_end_run(t, false, j - i, t.len() as int);
        assert(t.take(t.len() as int) =~= t);
        assert(t.take(j - i) =~= v@.subrange(i as int, j as int));
    }
    (i, j)
}

/// A copy of `v[from..to]`.
pub fn sub_vec(v: &Vec<char>, from: usize, to: usize) -> (r: Vec<char>)
    requires
        from <= to <= v.len(),
    ensures
        r@ == v@.subrange(from as int, to as int),
{
    let mut r: Vec<char> = Vec::new();
    extend_range(&mut r, v, from, to);
    assert(r@ =~= v@.subrange(from as int, to as int));
    r
}

/// The trimmed part of `v[from..to]` is `v[start..end]`.
pub fn trim_range(v: &Vec<char>, from: usize, to: usize) -> (r: (usize, usize))
    requires
        from <= to <= v.len(),
    ensures
        from <= r.0 <= r.1 <= to,
        trim(v@.subrange(from as int, to as int)) == v@.subrange(r.0 as int, r.1 as int),
{
    let w = sub_vec(v, from, to);
    let (a, b) = trim_bounds(&w);
    assert(w@.subrange(a as int, b as int) =~= v@.subrange(from + a, from + b));
    (from + a, from + b)
}

/// `str::trim`, answering a slice of `s`.
pub fn trim_str(s: &str) -> (r: &str)
    ensures
        r@ == trim(s@),
{
    let v = chars_of(s);
    let (a, b) = trim_bounds(&v);
    s.substring_char(a, b)
}

} // verus!

verus! {

/// Skipping leading separators twice is skipping them once.
pub proof fn lemma_skip_sep_idempotent(s: Seq<char>, ascii: bool)
    ensures
        skip_sep(skip_sep(s, ascii), ascii) == skip_sep(s, ascii),
    decreases s.len(),
{
    if s.len() > 0 && is_sep(s[0], ascii) {
        lemma_skip_sep_idempotent(s.drop_first(), ascii);
    }
}

/// Trimming the end of a text that starts with a non-separator keeps that
/// start, and trimming the end twice is trimming it once.
pub proof fn lemma_trim_end_keeps_start(s: Seq<char>, ascii: bool)
    requires
        s.len() > 0 ==> !is_sep(s[0], ascii),
    ensures
        skip_sep(trim_end_sep(s, ascii), ascii) == trim_end_sep(s, ascii),
        trim_end_sep(trim_end_sep(s, ascii), ascii) == trim_end_sep(s, ascii),
        trim_end_sep(s, ascii).len() > 0 ==> !is_sep(trim_end_sep(s, ascii)[0], ascii),
    decreases s.len(),
{
    if s.len() > 0 && is_sep(s.last(), ascii) {
        lemma_trim_end_keeps_start(s.drop_last(), ascii);
    }
}

/// Trimming twice is trimming once.
pub proof fn lemma_trim_idempotent(s: Seq<char>)
    ensures
        trim(trim(s)) == trim(s),
{
    lemma_skip_sep_shorter(s, false);
    lemma_trim_end_keeps_start(skip_sep(s, false), false);
}

} // verus!

verus! {

// ───────────────────────────── lines ─────────────────────────────

/// A line without its trailing carriage return.
pub open spec fn strip_cr(l: Seq<char>) -> Seq<char> {
    if l.len() > 0 && l.last() == '\r' {
        l.drop_last()
    } else {
        l
    }
}

/// `str::lines`: split at `\n`, each line without a trailing `\r`, and no
/// empty line after a final `\n`.
pub open spec fn lines(s: Seq<char>) -> Seq<Seq<char>>
    decreases s.len(),
{
    if s.len() == 0 {
        seq![]
    } else {
        match find_char(s, '\n') {
            None => seq![strip_cr(s)],
            Some(i) => {
                proof {
                    lemma_find_char_spec(s, '\n');
                }
                seq![strip_cr(s.take(i as int))] + lines(s.skip((i + 1) as int))
            },
        }
    }
}

/// A possibly empty half-open range of character positions.
pub struct Range {
    pub start: usize,
    pub end: usize,
}

pub open spec fn ranges_text(s: Seq<char>, rs: Seq<Range>) -> Seq<Seq<char>> {
    Seq::new(rs.len(), |i: int| s.subrange(rs[i].start as int, rs[i].end as int))
}

pub open spec fn ranges_valid(s: Seq<char>, rs: Seq<Range>) -> bool {
    forall|i: int|
        0 <= i < rs.len() ==> #[trigger] rs[i].start <= rs[i].end && rs[i].end <= s.len()
}

proof fn lemma_lines_step(s: Seq<char>, i: int, j: int)
    requires
        0 <= i <= j < s.len(),
        s[j] == '\n',
        forall|k: int| i <= k < j ==> #[trigger] s[k] != '\n',
    ensures
        lines(s.skip(i)) == seq![strip_cr(s.subrange(i, j))] + lines(s.skip(j + 1)),
{
    lemma_find_char_at(s, '\n', i, j);
    assert(s.skip(i).take(j - i) =~= s.subrange(i, j));
    assert(s.skip(i).skip(j - i + 1) =~= s.skip(j + 1));
}

proof fn lemma_lines_last(s: Seq<char>, i: int)
    requires
        0 <= i < s.len(),
        forall|k: int| i <= k < s.len() ==> #[trigger] s[k] != '\n',
    ensures
        lines(s.skip(i)) == seq![strip_cr(s.skip(i))],
{
    lemma_find_char_none(s, '\n', i);
}

/// Where each line of `v` starts and ends (`\r\n` and `\n` both end a line).
pub fn line_ranges(v: &Vec<char>) -> (rs: Vec<Range>)
    ensures
        ranges_valid(v@, rs@),
        ranges_text(v@, rs@) == lines(v@),
{
    let mut rs: Vec<Range> = Vec::new();
    let n = v.len();
    let mut i: usize = 0;
    assert(v@.skip(0) =~= v@);
    while i < n
        invariant
            n == v.len(),
            i <= n,
            ranges_valid(v@, rs@),
            ranges_text(v@, rs@) + lines(v@.skip(i as int)) == lines(v@),
        decreases n - i,
    {
        let ghost old_rs = rs@;
        match find_char_from(v, i, '\n') {
            Some(j) => {
                proof {
                    lemma_lines_step(v@, i as int, j as int);
                }
                let end = if j > i && v[j - 1] == '\r' {
                    j - 1
                } else {
                    j
                };
                assert(v@.subrange(i as int, end as int) =~= strip_cr(v@.subrange(i as int, j as int)));
                rs.push(Range { start: i, end });
                i = j + 1;
            },
            None => {
                proof {
                    lemma_lines_last(v@, i as int);
                }
                let end = if n > i && v[n - 1] == '\r' {
                    n - 1
                } else {
                    n
                };
                assert(v@.subrange(i as int, end as int) =~= strip_cr(v@.skip(i as int)));
                rs.push(Range { start: i, end });
                i = n;
                assert(v@.skip(n as int) =~= Seq::<char>::empty());
            },
        }
        assert forall|m: int| 0 <= m < rs@.len() implies #[trigger] rs@[m].start <= rs@[m].end
            && rs@[m].end <= v@.len() by {
            if m < old_rs.len() {
                assert(rs@[m] == old_rs[m]);
            }
        }
        assert(ranges_text(v@, rs@) =~= ranges_text(v@, old_rs) + seq![
            v@.subrange(rs@.last().start as int, rs@.last().end as int),
        ]);
    }
    assert(v@.skip(n as int) =~= Seq::<char>::empty());
    assert(lines(Seq::<char>::empty()) =~= Seq::<Seq<char>>::empty());
    assert(ranges_text(v@, rs@) + Seq::<Seq<char>>::empty() =~= ranges_text(v@, rs@));
    rs
}

} // verus!

verus! {

// ───────────────────────────── cutting at a character ─────────────────────────────

/// What follows the last `c` in `s` (all of `s` when there is none).
pub open spec fn after_last(s: Seq<char>, c: char) -> Seq<char>
    decreases s.len(),
{
    if s.len() == 0 {
        seq![]
    } else if s.last() == c {
        seq![]
    } else {
        after_last(s.drop_last(), c).push(s.last())
    }
}

/// What precedes the first `c` in `s` (all of `s` when there is none).
pub open spec fn before_first(s: Seq<char>, c: char) -> Seq<char> {
    match find_char(s, c) {
        Some(i) => s.take(i as int),
        None => s,
    }
}

/// Start of what follows the last `c` in `v[from..to]`.
pub fn after_last_in(v: &Vec<char>, from: usize, to: usize, c: char) -> (k: usize)
    requires
        from <= to <= v.len(),
    ensures
        from <= k <= to,
        v@.subrange(k as int, to as int) == after_last(v@.subrange(from as int, to as int), c),
{
    let mut k = to;
    while k > from && v[k - 1] != c
        invariant
            from <= k <= to <= v.len(),
            forall|m: int| k <= m < to ==> #[trigger] v@[m] != c,
        decreases k,
    {
        k = k - 1;
    }
    proof {
        lemma_after_last_run(v@, from as int, k as int, to as int, c);
    }
    k
}

proof fn lemma_after_last_run(s: Seq<char>, from: int, k: int, to: int, c: char)
    requires
        0 <= from <= k <= to <= s.len(),
        forall|m: int| k <= m < to ==> #[trigger] s[m] != c,
        k == from || s[k - 1] == c,
    ensures
        s.subrange(k, to) == after_last(s.subrange(from, to), c),
    decreases to - k,
{
    let t = s.subrange(from, to);
    if k < to {
        assert(t.drop_last() =~= s.subrange(from, to - 1));
        lemma_after_last_run(s, from, k, to - 1, c);
        assert(t.last() == s[to - 1]);
        assert(s.subrange(k, to) =~= s.subrange(k, to - 1).push(s[to - 1]));
    } else {
        if k > from {
            assert(t.last() == s[k - 1]);
        }
        assert(s.subrange(k, to) =~= Seq::<char>::empty());
    }
}

/// End of what precedes the first `c` in `v[from..to]`.
pub fn before_first_in(v: &Vec<char>, from: usize, to: usize, c: char) -> (k: usize)
    requires
        from <= to <= v.len(),
    ensures
        from <= k <= to,
        v@.subrange(from as int, k as int) == before_first(v@.subrange(from as int, to as int), c),
        k < to ==> v@[k as int] == c,
        forall|m: int| from <= m < k ==> #[trigger] v@[m] != c,
{
    let ghost t = v@.subrange(from as int, to as int);
    let mut k = from;
    while k < to && v[k] != c
        invariant
            from <= k <= to <= v.len(),
            forall|m: int| from <= m < k ==> #[trigger] v@[m] != c,
        decreases to - k,
    {
        k = k + 1;
    }
    proof {
        assert(t.skip(0) =~= t);
        if k < to {
            assert forall|m: int| 0 <= m < k - from implies #[trigger] t[m] != c by {
                assert(t[m] == v@[from + m]);
            }
            lemma_find_char_at(t, c, 0, k - from);
            assert(t.take(k - from) =~= v@.subrange(from as int, k as int));
        } else {
            assert forall|m: int| 0 <= m < t.len() implies #[trigger] t[m] != c by {
                assert(t[m] == v@[from + m]);
            }
            lemma_find_char_none(t, c, 0);
        }
    }
    k
}

/// Whether `s` contains `c`.
pub fn contains_char(v: &Vec<char>, from: usize, to: usize, c: char) -> (b: bool)
    requires
        from <= to <= v.len(),
    ensures
        b == v@.subrange(from as int, to as int).contains(c),
{
    let k = before_first_in(v, from, to, c);
    if k < to {
        assert(v@.subrange(from as int, to as int)[k - from] == c);
        true
    } else {
        assert forall|m: int| 0 <= m < to - from implies v@.subrange(from as int, to as int)[m]
            != c by {
            assert(v@.subrange(from as int, to as int)[m] == v@[from + m]);
        }
        false
    }
}

/// Whether `a[..]` and `b[..]` agree letter for letter, ignoring ASCII case.
pub fn range_eq_ic(a: &Vec<char>, af: usize, at: usize, b: &Vec<char>, bf: usize, bt: usize) -> (r: bool)
    requires
        af <= at <= a.len(),
        bf <= bt <= b.len(),
    ensures
        r == eq_ic(a@.subrange(af as int, at as int), b@.subrange(bf as int, bt as int)),
{
    let ghost x = a@.subrange(af as int, at as int);
    let ghost y = b@.subrange(bf as int, bt as int);
    if at - af != bt - bf {
        assert(lower(x).len() != lower(y).len());
        return false;
    }
    let mut i: usize = 0;
    while i < at - af
        invariant
            af <= at <= a.len(),
            bf <= bt <= b.len(),
            at - af == bt - bf,
            i <= at - af,
            x == a@.subrange(af as int, at as int),
            y == b@.subrange(bf as int, bt as int),
            forall|m: int| 0 <= m < i ==> lower_char(#[trigger] x[m]) == lower_char(y[m]),
        decreases at - af - i,
    {
        if to_lower_char(a[af + i]) != to_lower_char(b[bf + i]) {
            assert(lower(x)[i as int] != lower(y)[i as int]);
            return false;
        }
        i = i + 1;
    }
    assert(lower(x) =~= lower(y));
    true
}

} // verus!

verus! {

// ───────────────────────────── substrings ─────────────────────────────

/// Position of the first occurrence of `pat` in `s`.
pub open spec fn find_str(s: Seq<char>, pat: Seq<char>) -> Option<nat>
    decreases s.len(),
{
    if s.len() < pat.len() {
        None
    } else if s.take(pat.len() as int) == pat {
        Some(0)
    } else if s.len() == 0 {
        None
    } else {
        match find_str(s.drop_first(), pat) {
            Some(i) => Some(i + 1),
            None => None,
        }
    }
}

/// Whether `pat` occurs in `s` (`str::contains`).
pub open spec fn contains_str(s: Seq<char>, pat: Seq<char>) -> bool {
    find_str(s, pat).is_some()
}

pub open spec fn occurs_at(s: Seq<char>, pat: Seq<char>, m: int) -> bool {
    s.subrange(m, m + pat.len()) == pat
}

/// `pat` is first found at `k` when it occurs there and nowhere before;
/// with no room left past `k`, it is not found at all.
pub proof fn lemma_find_str(s: Seq<char>, pat: Seq<char>, k: int)
    requires
        0 <= k,
        forall|m: int| 0 <= m < k && m + pat.len() <= s.len() ==> !#[trigger] occurs_at(s, pat, m),
        (k + pat.len() <= s.len() && occurs_at(s, pat, k)) || k + pat.len() > s.len(),
    ensures
        find_str(s, pat) == (if k + pat.len() <= s.len() {
            Some(k as nat)
        } else {
            None::<nat>
        }),
    decreases s.len(),
{
    if s.len() >= pat.len() {
        assert(s.take(pat.len() as int) =~= s.subrange(0, pat.len() as int));
        if !occurs_at(s, pat, 0) {
            assert(s.len() >= 1) by {
                if s.len() == 0 {
                    assert(s.subrange(0, 0) =~= pat);
                }
            }
            if k == 0 {
                assert(k + pat.len() > s.len());
            }
            let t = s.drop_first();
            assert forall|m: int| 0 <= m < k - 1 && m + pat.len() <= t.len() implies !occurs_at(
                t,
                pat,
                m,
            ) by {
                assert(t.subrange(m, m + pat.len()) =~= s.subrange(m + 1, m + 1 + pat.len()));
                assert(!occurs_at(s, pat, m + 1));
            }
            if k + pat.len() <= s.len() {
                assert(t.subrange(k - 1, k - 1 + pat.len()) =~= s.subrange(k, k + pat.len()));
            }
            lemma_find_str(t, pat, k - 1);
        }
    }
}

/// Where `pat` first occurs in `v[from..to]`, as a position in `v`, or `None`.
pub fn find_str_in(v: &Vec<char>, from: usize, to: usize, pat: &str) -> (r: Option<usize>)
    requires
        from <= to <= v.len(),
    ensures
        match r {
            Some(k) => from <= k && k + pat@.len() <= to && find_str(v@.subrange(from as int, to as int), pat@)
                == Some((k - from) as nat),
            None => find_str(v@.subrange(from as int, to as int), pat@).is_none(),
        },
{
    let ghost s = v@.subrange(from as int, to as int);
    let n = pat.unicode_len();
    if n > to - from {
        proof {
            lemma_find_str(s, pat@, 0);
        }
        return None;
    }
    if n == 0 {
        proof {
            assert(s.subrange(0, 0) =~= pat@);
            lemma_find_str(s, pat@, 0);
        }
        return Some(from);
    }
    let mut k = from;
    while to - k >= n
        invariant
            from <= k <= to <= v.len(),
            n == pat@.len(),
            1 <= n <= to - from,
            s == v@.subrange(from as int, to as int),
            forall|m: int| 0 <= m < k - from && m + n <= s.len() ==> !#[trigger] occurs_at(s, pat@, m),
        decreases to - k,
    {
        assert(s.subrange(k - from, k - from + n) =~= v@.subrange(k as int, k + n));
        if range_eq(v, k, k + n, pat) {
            proof {
                lemma_find_str(s, pat@, k - from);
            }
            return Some(k);
        }
        k = k + 1;
    }
    proof {
        lemma_find_str(s, pat@, k - from);
    }
    None
}

/// `str::contains` over `v[from..to]`.
pub fn contains_str_in(v: &Vec<char>, from: usize, to: usize, pat: &str) -> (b: bool)
    requires
        from <= to <= v.len(),
    ensures
        b == contains_str(v@.subrange(from as int, to as int), pat@),
{
    find_str_in(v, from, to, pat).is_some()
}

} // verus!

verus! {

// ───────────────────────────── splitting at a character ─────────────────────────────

/// The pieces of `s` between occurrences of `c`, empty ones included
/// (`str::split` with a character): always at least one.
pub open spec fn split_char(s: Seq<char>, c: char) -> Seq<Seq<char>>
    decreases s.len(),
{
    match find_char(s, c) {
        None => seq![s],
        Some(i) => {
            proof {
                lemma_find_char_spec(s, c);
            }
            seq![s.take(i as int)] + split_char(s.skip(i as int + 1), c)
        },
    }
}

/// Where each piece of `v[from..to]` between occurrences of `c` stands.
pub fn split_char_ranges(v: &Vec<char>, from: usize, to: usize, c: char) -> (r: Vec<Range>)
    requires
        from <= to <= v.len(),
    ensures
        ranges_valid(v@, r@),
        ranges_text(v@, r@) == split_char(v@.subrange(from as int, to as int), c),
        r@.len() >= 1,
{
    let mut r: Vec<Range> = Vec::new();
    let mut start = from;
    let mut done = false;
    while !done
        invariant
            from <= start <= to,
            to <= v.len(),
            ranges_valid(v@, r@),
            !done ==> ranges_text(v@, r@) + split_char(v@.subrange(start as int, to as int), c)
                == split_char(v@.subrange(from as int, to as int), c),
            done ==> ranges_text(v@, r@) == split_char(v@.subrange(from as int, to as int), c)
                && r@.len() >= 1,
        decreases to - start + (if done { 0int } else { 1int }),
    {
        let k = before_first_in(v, start, to, c);
        let ghost t = v@.subrange(start as int, to as int);
        proof {
            assert forall|m: int| 0 <= m < k - start implies #[trigger] t[m] != c by {
                assert(t[m] == v@[start + m]);
            }
            assert(t.skip(0) =~= t);
            if k < to {
                assert(t[k - start] == c);
                lemma_find_char_at(t, c, 0, k - start);
                assert(t.take(k - start) =~= v@.subrange(start as int, k as int));
                assert(t.skip(k - start + 1) =~= v@.subrange(k + 1, to as int));
            } else {
                lemma_find_char_none(t, c, 0);
            }
        }
        let ghost old_r = r@;
        r.push(Range { start, end: k });
        assert(ranges_text(v@, r@) =~= ranges_text(v@, old_r) + seq![
            v@.subrange(start as int, k as int),
        ]);
        assert forall|m: int| 0 <= m < r@.len() implies #[trigger] r@[m].start <= r@[m].end
            && r@[m].end <= v@.len() by {
            if m < old_r.len() {
                assert(r@[m] == old_r[m]);
            }
        }
        if k == to {
            assert(ranges_text(v@, r@) =~= ranges_text(v@, old_r) + split_char(t, c));
            done = true;
        } else {
            assert(ranges_text(v@, r@) + split_char(v@.subrange(k + 1, to as int), c) =~= ranges_text(
                v@,
                old_r,
            ) + split_char(t, c));
            start = k + 1;
        }
    }
    r
}

} // verus!
