//! Which machine a job runs on, relative to the machine this surface is on.
//!
//! A surface can only reach the panes of the machine it runs on, while the
//! hub's job list also carries jobs forwarded from other hosts, each under
//! *its* alias. Every pane-matching decision starts by asking whether a job is
//! on this machine at all. A machine that will not name itself has nothing
//! foreign to it: the worst an unnamed machine gets is the matching it had
//! before.
use vstd::prelude::*;

use crate::text::{chars_of, eq_ic, lower_vec, seq_eq, trim, trim_bounds};

verus! {

/// `char::is_alphanumeric`: Unicode `Alphabetic` or `Numeric`.
pub uninterp spec fn alphanumeric(c: char) -> bool;

/// ASCII letters and digits.
pub open spec fn ascii_alnum(c: char) -> bool {
    ('a' <= c && c <= 'z') || ('A' <= c && c <= 'Z') || ('0' <= c && c <= '9')
}

/// `char::is_alphanumeric`. Its documentation defines it as the Unicode
/// `Alphabetic` or `Numeric` property, which over ASCII is exactly the letters
/// and the digits; beyond ASCII the contract names the answer without saying
/// which characters have it.
#[verifier::external_body]
fn is_alphanumeric(c: char) -> (b: bool)
    ensures
        b == alphanumeric(c),
        (c as u32) < 128 ==> b == ascii_alnum(c),
{
    c.is_alphanumeric()
}

/// Whether a character may appear in an alias: alphanumerics plus `.`, `-`
/// and `_`.
pub open spec fn alias_char(c: char) -> bool {
    alphanumeric(c) || c == '.' || c == '-' || c == '_'
}

/// The characters of `s` an alias may contain, in order.
pub open spec fn keep_alias_chars(s: Seq<char>) -> Seq<char>
    decreases s.len(),
{
    if s.len() == 0 {
        seq![]
    } else if alias_char(s.last()) {
        keep_alias_chars(s.drop_last()).push(s.last())
    } else {
        keep_alias_chars(s.drop_last())
    }
}

/// An alias as it is compared: trimmed, and reduced to the characters an
/// alias may contain.
pub open spec fn sanitize(raw: Seq<char>) -> Seq<char> {
    keep_alias_chars(trim(raw))
}

/// Whether two aliases name the same machine.
pub open spec fn same_alias_spec(left: Seq<char>, right: Seq<char>) -> bool {
    eq_ic(sanitize(left), sanitize(right))
}

fn sanitize_exec(raw: &str) -> (r: Vec<char>)
    ensures
        r@ == sanitize(raw@),
{
    let v = chars_of(raw);
    let (a, b) = trim_bounds(&v);
    let mut r: Vec<char> = Vec::new();
    let mut i = a;
    while i < b
        invariant
            a <= i <= b <= v.len(),
            trim(raw@) == v@.subrange(a as int, b as int),
            v@ == raw@,
            r@ == keep_alias_chars(v@.subrange(a as int, i as int)),
        decreases b - i,
    {
        let c = v[i];
        assert(v@.subrange(a as int, i + 1).drop_last() =~= v@.subrange(a as int, i as int));
        if is_alphanumeric(c) || c == '.' || c == '-' || c == '_' {
            r.push(c);
        }
        i = i + 1;
    }
    r
}

/// Whether two aliases name the same machine.
///
/// Compared the way they are produced: case-insensitively, and only over the
/// characters an alias may contain — the hub sanitises what it fills in while
/// a hook posts the raw name, so one machine can be spelled two ways.
pub fn same_alias(left: &str, right: &str) -> (b: bool)
    ensures
        b == same_alias_spec(left@, right@),
{
    let l = lower_vec(&sanitize_exec(left));
    let r = lower_vec(&sanitize_exec(right));
    seq_eq(&l, &r)
}

/// What [`foreign_alias`] answers.
pub open spec fn foreign_alias_spec(job_alias: Seq<char>, local: Option<Seq<char>>) -> Option<
    Seq<char>,
> {
    let alias = trim(job_alias);
    if alias.len() == 0 {
        None
    } else {
        match local {
            None => None,
            Some(l) => if same_alias_spec(alias, l) {
                None
            } else {
                Some(alias)
            },
        }
    }
}

/// The alias of the machine a job runs on, when that is not this one.
///
/// `None` covers the three "treat it as mine" cases: the job named no
/// machine, it named this one, or this machine has no name to compare
/// against.
pub fn foreign_alias<'a>(job_alias: &'a str, local: Option<&str>) -> (r: Option<&'a str>)
    ensures
        match r {
            Some(a) => foreign_alias_spec(job_alias@, opt_view(local)) == Some(a@),
            None => foreign_alias_spec(job_alias@, opt_view(local)).is_none(),
        },
{
    let alias = crate::text::trim_str(job_alias);
    if alias.unicode_len() == 0 {
        return None;
    }
    match local {
        None => None,
        Some(l) => {
            proof {
                lemma_trim_idempotent(job_alias@);
            }
            if same_alias(alias, l) {
                None
            } else {
                Some(alias)
            }
        },
    }
}

/// The view of an optional string slice.
pub open spec fn opt_view(s: Option<&str>) -> Option<Seq<char>> {
    match s {
        Some(v) => Some(v@),
        None => None,
    }
}

/// The views of a list of string slices.
pub open spec fn str_views(v: Seq<&str>) -> Seq<Seq<char>> {
    v.map_values(|s: &str| s@)
}

/// The view of an optional owned string.
pub open spec fn opt_string_view(s: Option<String>) -> Option<Seq<char>> {
    match s {
        Some(v) => Some(v@),
        None => None,
    }
}

/// Trimming twice is trimming once.
pub proof fn lemma_trim_idempotent(s: Seq<char>)
    ensures
        trim(trim(s)) == trim(s),
{
    crate::text::lemma_trim_idempotent(s);
}

/// A job never counts as foreign to the machine it names: whatever the case,
/// padding or stray characters of the two spellings, an alias that sanitises
/// to the local one is this machine.
pub proof fn lemma_own_alias_is_never_foreign(job_alias: Seq<char>, local: Seq<char>)
    requires
        same_alias_spec(trim(job_alias), local),
    ensures
        foreign_alias_spec(job_alias, Some(local)).is_none(),
{
}

/// Two spellings of one machine are one machine from either side.
pub proof fn lemma_same_alias_symmetric(a: Seq<char>, b: Seq<char>)
    ensures
        same_alias_spec(a, b) == same_alias_spec(b, a),
{
}

/// A borrowed view of an optional string.
pub fn opt_str(o: &Option<String>) -> (r: Option<&str>)
    ensures
        opt_view(r) == opt_string_view(*o),
{
    match o {
        Some(s) => Some(s.as_str()),
        None => None,
    }
}

/// The first line of a command's output, trimmed, when it is not blank.
pub open spec fn first_line_spec(text: Seq<char>) -> Option<Seq<char>> {
    let ls = crate::text::lines(text);
    if ls.len() > 0 && trim(ls[0]).len() > 0 {
        Some(trim(ls[0]))
    } else {
        None
    }
}

/// The host name up to its first dot, from `hostname`'s output.
pub open spec fn short_hostname_spec(text: Seq<char>) -> Option<Seq<char>> {
    match first_line_spec(text) {
        Some(line) => {
            let short = crate::text::before_first(line, '.');
            if short.len() > 0 {
                Some(short)
            } else {
                None
            }
        },
        None => None,
    }
}

/// This machine's alias from what its naming commands printed: the Bonjour
/// local host name when there is one (it survives DHCP renaming), else the
/// short host name; sanitised, and none when nothing is left.
pub open spec fn local_alias_spec(bonjour: Option<Seq<char>>, hostname: Option<Seq<char>>) -> Option<Seq<char>> {
    let named = match bonjour {
        Some(b) => first_line_spec(b),
        None => None,
    };
    let chosen = match named {
        Some(n) => Some(n),
        None => match hostname {
            Some(h) => short_hostname_spec(h),
            None => None,
        },
    };
    match chosen {
        Some(c) => if sanitize(c).len() > 0 {
            Some(sanitize(c))
        } else {
            None
        },
        None => None,
    }
}

fn first_line(text: &str) -> (r: Option<Vec<char>>)
    ensures
        match r {
            Some(v) => first_line_spec(text@) == Some(v@),
            None => first_line_spec(text@).is_none(),
        },
{
    let v = chars_of(text);
    let ranges = crate::text::line_ranges(&v);
    if ranges.len() == 0 {
        return None;
    }
    let (start, end) = (ranges[0].start, ranges[0].end);
    assert(start <= end && end <= v.len());
    let (a, b) = crate::text::trim_range(&v, start, end);
    if a == b {
        return None;
    }
    Some(crate::text::sub_vec(&v, a, b))
}

/// This machine's alias, from the output of the command that prints its
/// Bonjour name (`None` when it did not run or failed) and of `hostname`.
pub fn local_alias_from(bonjour: Option<&str>, hostname: Option<&str>) -> (r: Option<String>)
    ensures
        crate::machine::opt_string_view(r) == local_alias_spec(opt_view(bonjour), opt_view(hostname)),
{
    let named = match bonjour {
        Some(b) => first_line(b),
        None => None,
    };
    let chosen: Option<Vec<char>> = match named {
        Some(n) => Some(n),
        None => match hostname {
            Some(h) => match first_line(h) {
                Some(line) => {
                    let k = crate::text::before_first_in(&line, 0, line.len(), '.');
                    assert(line@.subrange(0, line.len() as int) =~= line@);
                    if k == 0 {
                        None
                    } else {
                        Some(crate::text::sub_vec(&line, 0, k))
                    }
                },
                None => None,
            },
            None => None,
        },
    };
    match chosen {
        Some(c) => {
            let name = crate::text::string_of(&c);
            let clean = sanitize_exec(name.as_str());
            if clean.len() == 0 {
                None
            } else {
                Some(crate::text::string_of(&clean))
            }
        },
        None => None,
    }
}

} // verus!
