//! What the sidebar shows, as data: where a job's workspace is, how rows
//! group into machine sections and sort within them, where the cursor stands,
//! and how the bottom panel scrolls.
use vstd::prelude::*;

use crate::filter::{shows, StatusFilter};
use crate::frame::JobView;
use crate::git::GitSnapshot;
use crate::preview::{key_of, JobPanes, PanePreview};
use crate::tmux::TmuxRunner;
use crate::order::{fold_lower, lemma_lex_total, lemma_lex_trans, lex_le, ranks_before, ranks_no_later, title_le};
use crate::machine::opt_string_view;
use crate::text::{chars_of, lower, range_eq, starts_with_at, string_of_range, trim, trim_range};

verus! {

// ───────────────────────────── percent escapes ─────────────────────────────

/// What `String::from_utf8_lossy` answers for a byte string.
pub uninterp spec fn utf8_lossy(bytes: Seq<u8>) -> Seq<char>;

/// `String::from_utf8_lossy`. Its documentation: bytes that are valid UTF-8
/// are read as the text they encode; anything else is replaced
/// character by character (that part is named, not stated).
#[verifier::external_body]
fn from_utf8_lossy(bytes: &Vec<u8>) -> (s: String)
    ensures
        s@ == utf8_lossy(bytes@),
        forall|t: Seq<char>| bytes@ == #[trigger] vstd::utf8::encode_utf8(t) ==> s@ == t,
{
    String::from_utf8_lossy(bytes.as_slice()).into_owned()
}

/// The value of one hex digit.
pub open spec fn hex_digit(c: u8) -> Option<u8> {
    if 48 <= c && c <= 57 {
        Some((c - 48) as u8)
    } else if 97 <= c && c <= 102 {
        Some((c - 97 + 10) as u8)
    } else if 65 <= c && c <= 70 {
        Some((c - 65 + 10) as u8)
    } else {
        None
    }
}

/// The byte two hex digits spell.
pub open spec fn hex_byte_spec(high: u8, low: u8) -> Option<u8> {
    match (hex_digit(high), hex_digit(low)) {
        (Some(h), Some(l)) => Some((h * 16 + l) as u8),
        _ => None,
    }
}

/// One percent escape's two hex digits as the byte they spell.
pub fn hex_byte(high: u8, low: u8) -> (r: Option<u8>)
    ensures
        r == hex_byte_spec(high, low),
{
    let h = if 48u8 <= high && high <= 57u8 {
        high - 48u8
    } else if 97u8 <= high && high <= 102u8 {
        high - 97u8 + 10
    } else if 65u8 <= high && high <= 70u8 {
        high - 65u8 + 10
    } else {
        return None;
    };
    let l = if 48u8 <= low && low <= 57u8 {
        low - 48u8
    } else if 97u8 <= low && low <= 102u8 {
        low - 97u8 + 10
    } else if 65u8 <= low && low <= 70u8 {
        low - 65u8 + 10
    } else {
        return None;
    };
    Some(h * 16 + l)
}

/// The bytes with every `%XY` escape (two hex digits) replaced by the byte
/// it spells; a `%` not followed by two hex digits stays as it is.
pub open spec fn unescape_bytes(bs: Seq<u8>) -> Seq<u8>
    decreases bs.len(),
{
    if bs.len() == 0 {
        seq![]
    } else if bs[0] == 37 && bs.len() > 2 && hex_byte_spec(bs[1], bs[2]) is Some {
        seq![hex_byte_spec(bs[1], bs[2])->0] + unescape_bytes(bs.skip(3))
    } else {
        seq![bs[0]] + unescape_bytes(bs.drop_first())
    }
}

/// What [`percent_decode`] answers: the text unchanged when it holds no `%`,
/// else its bytes unescaped and read back as UTF-8, since escapes that only
/// mean anything together spell one character.
pub open spec fn percent_decode_spec(input: Seq<char>) -> Seq<char> {
    if !input.contains('%') {
        input
    } else {
        utf8_lossy(unescape_bytes(vstd::utf8::encode_utf8(input)))
    }
}

/// `%20` → space, over the bytes of `input`.
pub fn percent_decode(input: &str) -> (r: String)
    ensures
        r@ == percent_decode_spec(input@),
{
    let v = chars_of(input);
    assert(v@.subrange(0, v.len() as int) =~= v@);
    if !crate::text::contains_char(&v, 0, v.len(), '%') {
        return input.to_owned();
    }
    let bytes = input.as_bytes();
    let ghost bs = bytes@;
    let mut out: Vec<u8> = Vec::new();
    let mut i: usize = 0;
    assert(bs.skip(0) =~= bs);
    while i < bytes.len()
        invariant
            i <= bytes.len(),
            bs == bytes@,
            out@ + unescape_bytes(bs.skip(i as int)) == unescape_bytes(bs),
        decreases bytes.len() - i,
    {
        let ghost rest = bs.skip(i as int);
        assert(rest[0] == bs[i as int]);
        if bytes[i] == 37u8 && bytes.len() - i > 2 {
            assert(rest[1] == bs[i + 1] && rest[2] == bs[i + 2]);
            if let Some(byte) = hex_byte(bytes[i + 1], bytes[i + 2]) {
                let ghost before = out@;
                out.push(byte);
                assert(rest.skip(3) =~= bs.skip(i + 3));
                assert(before + unescape_bytes(rest) =~= out@ + unescape_bytes(bs.skip(i + 3)));
                i = i + 3;
                continue;
            }
        }
        let ghost before = out@;
        out.push(bytes[i]);
        assert(rest.drop_first() =~= bs.skip(i + 1));
        assert(before + unescape_bytes(rest) =~= out@ + unescape_bytes(bs.skip(i + 1)));
        i = i + 1;
    }
    assert(bs.skip(i as int) =~= Seq::<u8>::empty());
    assert(out@ + Seq::<u8>::empty() =~= out@);
    from_utf8_lossy(&out)
}

// ───────────────────────────── where a job works ─────────────────────────────

pub open spec fn starts_with(s: Seq<char>, p: Seq<char>) -> bool {
    p.len() <= s.len() && s.take(p.len() as int) == p
}

/// The path of an IDE deep link under `scheme`, when it has one.
pub open spec fn scheme_path(url: Seq<char>, scheme: Seq<char>) -> Option<Seq<char>> {
    if starts_with(url, scheme) && url.len() > scheme.len() && url[scheme.len() as int] == '/' {
        Some(url.skip(scheme.len() as int))
    } else {
        None
    }
}

/// What [`workspace_path_from_url`] answers: the path of a `file://` URI
/// (an optional `localhost` host dropped), or of a `cursor://file`,
/// `vscode://file` or `vscode-insiders://file` deep link, percent-decoded;
/// only an absolute path counts.
pub open spec fn workspace_path_spec(raw: Seq<char>) -> Option<Seq<char>> {
    let url = trim(raw);
    if url.len() == 0 {
        None
    } else if starts_with(url, "file://"@) {
        let path = url.skip(7);
        let path = if starts_with(path, "localhost"@) {
            path.skip(9)
        } else if starts_with(path, "//localhost"@) {
            path.skip(11)
        } else {
            path
        };
        if path.len() > 0 && path[0] == '/' {
            Some(percent_decode_spec(path))
        } else {
            None
        }
    } else if scheme_path(url, "cursor://file"@) is Some {
        Some(percent_decode_spec(scheme_path(url, "cursor://file"@)->0))
    } else if scheme_path(url, "vscode://file"@) is Some {
        Some(percent_decode_spec(scheme_path(url, "vscode://file"@)->0))
    } else if scheme_path(url, "vscode-insiders://file"@) is Some {
        Some(percent_decode_spec(scheme_path(url, "vscode-insiders://file"@)->0))
    } else {
        None
    }
}

/// Whether `v[from..to]` starts with `lit`, as [`starts_with`] says.
fn starts_with_in(v: &Vec<char>, from: usize, to: usize, lit: &str) -> (b: bool)
    requires
        from <= to <= v.len(),
    ensures
        b == starts_with(v@.subrange(from as int, to as int), lit@),
{
    let n = lit.unicode_len();
    if n > to - from {
        return false;
    }
    assert(v@.subrange(from as int, to as int).take(n as int) =~= v@.subrange(from as int, from + n));
    range_eq(v, from, from + n, lit)
}

/// A filesystem path from a producer's `openURL`: hooks emit either
/// `file:///path` or IDE deep links like `cursor://file/Users/…`.
pub fn workspace_path_from_url(url: &str) -> (r: Option<String>)
    ensures
        opt_string_view(r) == workspace_path_spec(url@),
{
    let v = chars_of(url);
    let (a, b) = trim_range(&v, 0, v.len());
    assert(v@.subrange(0, v.len() as int) =~= v@);
    let ghost t = v@.subrange(a as int, b as int);
    if a == b {
        return None;
    }
    proof {
        reveal_strlit("file://");
        reveal_strlit("localhost");
        reveal_strlit("//localhost");
    }
    if starts_with_in(&v, a, b, "file://") {
        let p = a + 7;
        assert(t.skip(7) =~= v@.subrange(p as int, b as int));
        let start = if starts_with_in(&v, p, b, "localhost") {
            assert(v@.subrange(p as int, b as int).skip(9) =~= v@.subrange(p + 9, b as int));
            p + 9
        } else if starts_with_in(&v, p, b, "//localhost") {
            assert(v@.subrange(p as int, b as int).skip(11) =~= v@.subrange(p + 11, b as int));
            p + 11
        } else {
            p
        };
        if start < b && v[start] == '/' {
            let path = string_of_range(&v, start, b);
            return Some(percent_decode(path.as_str()));
        }
        return None;
    }
    let schemes = ["cursor://file", "vscode://file", "vscode-insiders://file"];
    let mut k: usize = 0;
    while k < 3
        invariant
            k <= 3,
            a < b <= v.len(),
            t == v@.subrange(a as int, b as int),
            t == trim(url@),
            !starts_with(t, "file://"@),
            schemes@ == seq!["cursor://file", "vscode://file", "vscode-insiders://file"],
            k >= 1 ==> scheme_path(t, "cursor://file"@) is None,
            k >= 2 ==> scheme_path(t, "vscode://file"@) is None,
            k >= 3 ==> scheme_path(t, "vscode-insiders://file"@) is None,
        decreases 3 - k,
    {
        let scheme = schemes[k];
        let n = scheme.unicode_len();
        if starts_with_in(&v, a, b, scheme) && b - a > n && v[a + n] == '/' {
            assert(t[n as int] == v@[a + n]);
            assert(t.skip(n as int) =~= v@.subrange(a + n, b as int));
            let path = string_of_range(&v, a + n, b);
            return Some(percent_decode(path.as_str()));
        }
        k = k + 1;
    }
    None
}

/// The separator of a focus breadcrumb before its path: ` · /`.
pub open spec fn crumb_separator() -> Seq<char> {
    seq![' ', '·', ' ', '/']
}

/// What [`path_from_focus_hint`] answers: the hint itself when it is an
/// absolute path, else what follows the first ` · ` that is followed by one.
pub open spec fn focus_hint_path(hint: Option<Seq<char>>) -> Option<Seq<char>> {
    match hint {
        None => None,
        Some(raw) => {
            let h = trim(raw);
            if h.len() == 0 {
                None
            } else if h[0] == '/' {
                Some(percent_decode_spec(h))
            } else {
                match crate::text::find_str(h, crumb_separator()) {
                    Some(i) => {
                        let path = trim(h.skip(i as int + 2));
                        if path.len() > 0 && path[0] == '/' {
                            Some(percent_decode_spec(path))
                        } else {
                            None
                        }
                    },
                    None => None,
                }
            }
        },
    }
}

/// Last absolute path segment in a focus breadcrumb (`… · /Users/…/proj`).
pub fn path_from_focus_hint(hint: Option<&str>) -> (r: Option<String>)
    ensures
        opt_string_view(r) == focus_hint_path(crate::machine::opt_view(hint)),
{
    let hint = match hint {
        Some(h) => h,
        None => return None,
    };
    let v = chars_of(hint);
    let (a, b) = trim_range(&v, 0, v.len());
    assert(v@.subrange(0, v.len() as int) =~= v@);
    let ghost h = v@.subrange(a as int, b as int);
    if a == b {
        return None;
    }
    if v[a] == '/' {
        let path = string_of_range(&v, a, b);
        return Some(percent_decode(path.as_str()));
    }
    proof {
        reveal_strlit(" · /");
    }
    assert(" · /"@ == crumb_separator());
    match crate::text::find_str_in(&v, a, b, " · /") {
        Some(i) => {
            assert(h.skip(i - a + 2) =~= v@.subrange(i + 2, b as int));
            let (ps, pe) = trim_range(&v, i + 2, b);
            if ps < pe && v[ps] == '/' {
                let path = string_of_range(&v, ps, pe);
                Some(percent_decode(path.as_str()))
            } else {
                None
            }
        },
        None => None,
    }
}

/// What [`job_path`] answers: the workspace the `openURL` names, else an
/// absolute `context.workspace`, else the path at the end of the focus hint.
pub open spec fn job_path_spec(job: JobView) -> Option<Seq<char>> {
    let from_url = match job.location {
        Some(l) => match l.open_url {
            Some(url) => workspace_path_spec(url@),
            None => None,
        },
        None => None,
    };
    let workspace = match job.context.workspace {
        Some(w) => if trim(w@).len() > 0 && trim(w@)[0] == '/' {
            Some(trim(w@))
        } else {
            None
        },
        None => None,
    };
    let hint = match job.location {
        Some(l) => opt_string_view(l.focus_hint),
        None => None,
    };
    if from_url is Some {
        from_url
    } else if workspace is Some {
        workspace
    } else {
        focus_hint_path(hint)
    }
}

/// Where a job works, as this machine would find it.
pub fn job_path(job: &JobView) -> (r: Option<String>)
    ensures
        opt_string_view(r) == job_path_spec(*job),
{
    if let Some(location) = &job.location {
        if let Some(url) = &location.open_url {
            if let Some(path) = workspace_path_from_url(url.as_str()) {
                return Some(path);
            }
        }
    }
    if let Some(w) = &job.context.workspace {
        let t = crate::text::trim_str(w.as_str());
        if t.unicode_len() > 0 && t.get_char(0) == '/' {
            return Some(t.to_owned());
        }
    }
    match &job.location {
        Some(location) => match &location.focus_hint {
            Some(h) => path_from_focus_hint(Some(h.as_str())),
            None => path_from_focus_hint(None),
        },
        None => path_from_focus_hint(None),
    }
}

/// Whether an `openURL` is an IDE deep link the OS should open: `cursor://`,
/// `vscode://` or `vscode-insiders://`, in any case. A plain `file://` URI
/// means the agent ran in a terminal, and the tmux jump handles it.
pub open spec fn ide_deep_link_spec(url: Seq<char>) -> bool {
    let u = lower(trim(url));
    starts_with(u, "cursor://"@) || starts_with(u, "vscode://"@) || starts_with(
        u,
        "vscode-insiders://"@,
    )
}

pub fn is_ide_deep_link(url: &str) -> (b: bool)
    ensures
        b == ide_deep_link_spec(url@),
{
    let v = chars_of(url);
    let (a, b) = trim_range(&v, 0, v.len());
    assert(v@.subrange(0, v.len() as int) =~= v@);
    let t = crate::text::sub_vec(&v, a, b);
    let low = crate::text::lower_vec(&t);
    assert(low@.subrange(0, low.len() as int) =~= low@);
    starts_with_in(&low, 0, low.len(), "cursor://") || starts_with_in(&low, 0, low.len(), "vscode://")
        || starts_with_in(&low, 0, low.len(), "vscode-insiders://")
}

/// The machine a job's section is titled with: its alias, trimmed.
pub fn machine_label(job: &JobView) -> (r: &str)
    ensures
        r@ == trim(job.alias@),
{
    crate::text::trim_str(job.alias.as_str())
}

// ───────────────────────────── the bottom panel ─────────────────────────────

/// What the panel under the job list is showing: what the agent was asked
/// for, or the worktree's git status.
#[derive(Clone, Copy, Debug, PartialEq, Eq, Structural)]
pub enum BottomTab {
    Prompt,
    Git,
}

/// Rows one line needs once wrapped to `width` columns (at least one).
pub open spec fn line_rows(line: Seq<char>, width: nat) -> nat {
    let w = crate::columns::str_width(line);
    if w == 0 {
        1
    } else {
        ((w - 1) as nat / width + 1) as nat
    }
}

/// Rows a text's lines need, together.
pub open spec fn rows_of(ls: Seq<Seq<char>>, width: nat) -> nat
    decreases ls.len(),
{
    if ls.len() == 0 {
        0
    } else {
        rows_of(ls.drop_last(), width) + line_rows(ls.last(), width)
    }
}

/// What [`wrapped_lines`] answers: at least one row, and each line its
/// wrapped height (a zero width counts as one column).
pub open spec fn wrapped_lines_spec(text: Seq<char>, width: nat) -> nat {
    let w = if width >= 1 {
        width
    } else {
        1
    };
    let total = rows_of(crate::text::lines(text), w);
    if total >= 1 {
        total
    } else {
        1
    }
}

/// Rows `text` needs once wrapped to `width` columns.
pub fn wrapped_lines(text: &str, width: u16) -> (n: usize)
    requires
        wrapped_lines_spec(text@, width as nat) <= usize::MAX,
    ensures
        n == wrapped_lines_spec(text@, width as nat),
{
    match wrapped_lines_checked(text, width) {
        Some(n) => n,
        None => 1,
    }
}

/// Rows `text` needs once wrapped to `width` columns, or `None` when that
/// count does not fit in a `usize`.
pub fn wrapped_lines_checked(text: &str, width: u16) -> (r: Option<usize>)
    ensures
        match r {
            Some(n) => n == wrapped_lines_spec(text@, width as nat),
            None => wrapped_lines_spec(text@, width as nat) > usize::MAX,
        },
{
    let w: usize = if width >= 1 {
        width as usize
    } else {
        1
    };
    let v = chars_of(text);
    let ranges = crate::text::line_ranges(&v);
    let ghost ls = crate::text::ranges_text(v@, ranges@);
    let mut total: usize = 0;
    let mut i: usize = 0;
    assert(ls.take(0) =~= Seq::<Seq<char>>::empty());
    while i < ranges.len()
        invariant
            i <= ranges.len(),
            w >= 1,
            w == (if width >= 1 { width as nat } else { 1nat }),
            ls == crate::text::ranges_text(v@, ranges@),
            ls == crate::text::lines(text@),
            crate::text::ranges_valid(v@, ranges@),
            total == rows_of(ls.take(i as int), w as nat),
        decreases ranges.len() - i,
    {
        assert(ls.take(i + 1).drop_last() =~= ls.take(i as int));
        assert(ls.take(i + 1).last() == v@.subrange(ranges[i as int].start as int, ranges[i as int].end as int));
        let line = string_of_range(&v, ranges[i].start, ranges[i].end);
        let lw = crate::columns::display_width(line.as_str());
        let rows = if lw == 0 {
            1
        } else {
            (lw - 1) / w + 1
        };
        assert(rows == line_rows(line@, w as nat));
        match total.checked_add(rows) {
            Some(t) => {
                total = t;
            },
            None => {
                proof {
                    lemma_rows_of_mono(ls, w as nat, i + 1);
                }
                return None;
            },
        }
        i = i + 1;
    }
    assert(ls.take(ranges.len() as int) =~= ls);
    if total >= 1 {
        Some(total)
    } else {
        Some(1)
    }
}

/// The rows of a prefix of the lines are no more than those of all of them.
proof fn lemma_rows_of_mono(ls: Seq<Seq<char>>, w: nat, k: int)
    requires
        0 <= k <= ls.len(),
        w >= 1,
    ensures
        rows_of(ls.take(k), w) <= rows_of(ls, w),
    decreases ls.len() - k,
{
    if k < ls.len() {
        lemma_rows_of_mono(ls, w, k + 1);
        assert(ls.take(k + 1).drop_last() =~= ls.take(k));
    } else {
        assert(ls.take(k) =~= ls);
    }
}

} // verus!

verus! {

// ───────────────────────────── machine sections ─────────────────────────────

/// Section title for a job whose producer named no machine.
pub const UNKNOWN_MACHINE: &'static str = "unknown";

/// The section a job is listed under: its trimmed alias, or
/// [`UNKNOWN_MACHINE`] when that is empty.
pub open spec fn section_title(job: JobView) -> Seq<char> {
    if trim(job.alias@).len() == 0 {
        UNKNOWN_MACHINE@
    } else {
        trim(job.alias@)
    }
}

fn section_title_exec(job: &JobView) -> (r: &str)
    ensures
        r@ == section_title(*job),
{
    let label = machine_label(job);
    if label.is_empty() {
        UNKNOWN_MACHINE
    } else {
        label
    }
}

/// The views of a list of character vectors.
pub open spec fn char_views(v: Seq<Vec<char>>) -> Seq<Seq<char>> {
    v.map_values(|c: Vec<char>| c@)
}

/// `title` is the section title of a job `filter` shows.
pub open spec fn shown_title(jobs: Seq<JobView>, filter: StatusFilter, title: Seq<char>) -> bool {
    exists|i: int| 0 <= i < jobs.len() && shows(filter, #[trigger] jobs[i]) && section_title(jobs[i]) == title
}

/// `titles` are the section titles of the jobs `filter` shows: each once, in
/// title order.
pub open spec fn titles_of(jobs: Seq<JobView>, filter: StatusFilter, titles: Seq<Seq<char>>) -> bool {
    &&& titles.no_duplicates()
    &&& forall|a: int, b: int|
        0 <= a < b < titles.len() ==> title_le(#[trigger] titles[a], #[trigger] titles[b])
    &&& forall|a: int| 0 <= a < titles.len() ==> #[trigger] shown_title(jobs, filter, titles[a])
    &&& forall|i: int|
        0 <= i < jobs.len() && shows(filter, #[trigger] jobs[i]) ==> titles.contains(
            section_title(jobs[i]),
        )
}

/// The section titles of the jobs `filter` shows, once each, in title order.
#[verifier::spinoff_prover]
#[verifier::rlimit(40)]
fn collect_titles(jobs: &[JobView], filter: StatusFilter) -> (r: Vec<Vec<char>>)
    ensures
        titles_of(jobs@, filter, char_views(r@)),
{
    let mut tv: Vec<Vec<char>> = Vec::new();
    let mut lv: Vec<Vec<char>> = Vec::new();
    let mut i: usize = 0;
    while i < jobs.len()
        invariant
            i <= jobs.len(),
            tv.len() == lv.len(),
            forall|a: int| 0 <= a < lv.len() ==> #[trigger] lv@[a]@ == fold_lower(tv@[a]@),
            char_views(tv@).no_duplicates(),
            forall|a: int, b: int| 0 <= a < b < lv.len() ==> lex_le(#[trigger] lv@[a]@, #[trigger] lv@[b]@),
            forall|a: int|
                #![trigger tv@[a]]
                0 <= a < tv.len() ==> exists|m: int|
                    0 <= m < i && shows(filter, #[trigger] jobs@[m]) && section_title(jobs@[m])
                        == tv@[a]@,
            forall|m: int|
                0 <= m < i && shows(filter, #[trigger] jobs@[m]) ==> char_views(tv@).contains(
                    section_title(jobs@[m]),
                ),
        decreases jobs.len() - i,
    {
        let job = &jobs[i];
        if filter.matches(job) {
            let title = section_title_exec(job);
            let t = chars_of(title);
            let mut found = false;
            let mut k: usize = 0;
            while k < tv.len()
                invariant
                    k <= tv.len(),
                    found ==> char_views(tv@).contains(t@),
                    !found ==> forall|a: int| 0 <= a < k ==> tv@[a]@ != t@,
                decreases tv.len() - k,
            {
                if crate::text::seq_eq(&tv[k], &t) {
                    assert(char_views(tv@)[k as int] == t@);
                    found = true;
                }
                k = k + 1;
            }
            if !found {
                let low = crate::order::lowered(title);
                let mut p: usize = 0;
                while p < lv.len() && crate::order::lex_le_exec(&lv[p], &low)
                    invariant
                        p <= lv.len(),
                        forall|a: int| 0 <= a < p ==> lex_le(#[trigger] lv@[a]@, low@),
                    decreases lv.len() - p,
                {
                    p = p + 1;
                }
                proof {
                    if p < lv.len() {
                        lemma_lex_total(lv@[p as int]@, low@);
                        assert forall|b: int| p <= b < lv.len() implies lex_le(low@, #[trigger] lv@[b]@) by {
                            if b > p {
                                lemma_lex_trans(low@, lv@[p as int]@, lv@[b]@);
                            }
                        }
                    }
                }
                let ghost old_tv = tv@;
                let ghost old_lv = lv@;
                tv.insert(p, t);
                lv.insert(p, low);
                proof {
                    old_tv.insert_ensures(p as int, t);
                    old_lv.insert_ensures(p as int, low);
                    assert forall|a: int| 0 <= a < lv.len() implies #[trigger] lv@[a]@ == fold_lower(tv@[a]@) by {
                        if a > p {
                            assert(lv@[a] == old_lv[a - 1]);
                            assert(tv@[a] == old_tv[a - 1]);
                        }
                    }
                    assert forall|a: int, b: int| 0 <= a < b < lv.len() implies lex_le(#[trigger] lv@[a]@, #[trigger] lv@[b]@) by {
                        if a < p && b == p {
                        } else if a < p && b > p {
                            assert(lv@[b] == old_lv[b - 1]);
                            lemma_lex_trans(lv@[a]@, low@, lv@[b]@);
                        } else if a == p {
                            assert(lv@[b] == old_lv[b - 1]);
                        } else if a > p {
                            assert(lv@[b] == old_lv[b - 1]);
                            assert(lv@[a] == old_lv[a - 1]);
                        } else {
                        }
                    }
                    let cv = char_views(tv@);
                    let ocv = char_views(old_tv);
                    assert forall|a: int, b: int| 0 <= a < cv.len() && 0 <= b < cv.len() && a != b implies cv[a] != cv[b] by {
                        let oa = if a < p { a } else if a > p { a - 1 } else { -1 };
                        let ob = if b < p { b } else if b > p { b - 1 } else { -1 };
                        if oa >= 0 {
                            assert(cv[a] == ocv[oa]);
                        }
                        if ob >= 0 {
                            assert(cv[b] == ocv[ob]);
                        }
                    }
                    assert forall|a: int|
                        #![trigger tv@[a]]
                        0 <= a < tv.len() implies exists|m: int|
                            0 <= m < i + 1 && shows(filter, #[trigger] jobs@[m]) && section_title(jobs@[m])
                                == tv@[a]@ by {
                        if a < p {
                            assert(tv@[a] == old_tv[a]);
                        } else if a > p {
                            assert(tv@[a] == old_tv[a - 1]);
                        } else {
                            assert(shows(filter, jobs@[i as int]));
                        }
                    }
                    assert forall|m: int|
                        0 <= m < i + 1 && shows(filter, #[trigger] jobs@[m]) implies char_views(tv@).contains(
                            section_title(jobs@[m]),
                        ) by {
                        if m < i {
                            let a = choose|a: int| 0 <= a < ocv.len() && ocv[a] == section_title(jobs@[m]);
                            if a < p {
                                assert(cv[a] == ocv[a]);
                            } else {
                                assert(cv[a + 1] == ocv[a]);
                            }
                        } else {
                            assert(cv[p as int] == t@);
                        }
                    }
                }
            } else {
                assert forall|m: int|
                    0 <= m < i + 1 && shows(filter, #[trigger] jobs@[m]) implies char_views(tv@).contains(
                        section_title(jobs@[m]),
                    ) by {
                }
            }
        }
        i = i + 1;
    }
    proof {
        let cv = char_views(tv@);
        assert forall|a: int, b: int| 0 <= a < b < cv.len() implies title_le(#[trigger] cv[a], #[trigger] cv[b]) by {
            assert(lex_le(lv@[a]@, lv@[b]@));
        }
        assert forall|a: int| 0 <= a < cv.len() implies #[trigger] shown_title(jobs@, filter, cv[a]) by {
            assert(cv[a] == tv@[a]@);
            let m = choose|m: int|
                0 <= m < i && shows(filter, #[trigger] jobs@[m]) && section_title(jobs@[m])
                    == tv@[a]@;
            assert(0 <= m < jobs@.len() && shows(filter, jobs@[m]) && section_title(jobs@[m]) == cv[a]);
        }
        assert(titles_of(jobs@, filter, cv));
    }
    tv
}

/// Job `i` is one `filter` shows, and it is listed under `title`.
pub open spec fn listed_under(jobs: Seq<JobView>, filter: StatusFilter, title: Seq<char>, i: int) -> bool {
    0 <= i < jobs.len() && shows(filter, jobs[i]) && section_title(jobs[i]) == title
}

/// `section` lists, once each, the jobs `filter` shows under `title`, the
/// most pressing first (jobs that tie may come in either order).
pub open spec fn section_of(
    jobs: Seq<JobView>,
    filter: StatusFilter,
    now: int,
    title: Seq<char>,
    section: Seq<usize>,
) -> bool {
    &&& section.no_duplicates()
    &&& forall|t: int|
        0 <= t < section.len() ==> #[trigger] listed_under(jobs, filter, title, section[t] as int)
    &&& forall|i: int| #[trigger] listed_under(jobs, filter, title, i) ==> section.contains(i as usize)
    &&& forall|a: int, b: int|
        0 <= a < b < section.len() ==> ranks_no_later(
            now,
            jobs[#[trigger] section[a] as int],
            jobs[#[trigger] section[b] as int],
        )
}

/// The rows of `r` are in order: none ranks before a row above it.
pub open spec fn ranked(jobs: Seq<JobView>, now: int, r: Seq<usize>) -> bool {
    forall|a: int, b: int|
        0 <= a < b < r.len() ==> ranks_no_later(
            now,
            jobs[#[trigger] r[a] as int],
            jobs[#[trigger] r[b] as int],
        )
}

/// Insert row `i` after every row it does not rank before, keeping the order.
fn insert_ranked(r: &mut Vec<usize>, jobs: &[JobView], now: i128, i: usize) -> (p: usize)
    requires
        i < jobs.len(),
        forall|t: int| 0 <= t < old(r).len() ==> #[trigger] old(r)@[t] < jobs.len(),
        ranked(jobs@, now as int, old(r)@),
    ensures
        p <= old(r).len(),
        final(r)@ == old(r)@.insert(p as int, i),
        ranked(jobs@, now as int, final(r)@),
{
    let job = &jobs[i];
    let mut p: usize = 0;
    while p < r.len() && !crate::order::job_ranks_before(now, job, &jobs[r[p]])
        invariant
            p <= r.len(),
            forall|t: int| 0 <= t < r.len() ==> #[trigger] r@[t] < jobs.len(),
            job == jobs@[i as int],
            forall|a: int| 0 <= a < p ==> !ranks_before(now as int, *job, jobs@[#[trigger] r@[a] as int]),
        decreases r.len() - p,
    {
        p = p + 1;
    }
    let ghost old_r = r@;
    r.insert(p, i);
    proof {
        old_r.insert_ensures(p as int, i);
        assert forall|a: int, b: int|
            0 <= a < b < r.len() implies ranks_no_later(
                now as int,
                jobs@[#[trigger] r@[a] as int],
                jobs@[#[trigger] r@[b] as int],
            ) by {
            let oa = if a < p { a } else { a - 1 };
            let ob = if b < p { b } else { b - 1 };
            if a != p {
                assert(r@[a] == old_r[oa]);
            }
            if b != p {
                assert(r@[b] == old_r[ob]);
            }
            if a == p && b > p {
                assert(ranks_before(now as int, *job, jobs@[old_r[p as int] as int]));
                if b > p + 1 {
                    assert(ranks_no_later(now as int, jobs@[old_r[p as int] as int], jobs@[old_r[ob] as int]));
                }
            }
        }
    }
    p
}

/// The jobs `filter` shows under `title`, most pressing first.
fn collect_section(jobs: &[JobView], filter: StatusFilter, now: i128, title: &Vec<char>) -> (r: Vec<
    usize,
>)
    ensures
        section_of(jobs@, filter, now as int, title@, r@),
{
    let mut r: Vec<usize> = Vec::new();
    let mut i: usize = 0;
    while i < jobs.len()
        invariant
            i <= jobs.len(),
            r@.no_duplicates(),
            forall|t: int| 0 <= t < r.len() ==> #[trigger] r@[t] < i,
            forall|t: int|
                0 <= t < r.len() ==> #[trigger] listed_under(jobs@, filter, title@, r@[t] as int),
            forall|m: int|
                0 <= m < i && #[trigger] listed_under(jobs@, filter, title@, m) ==> r@.contains(m as usize),
            ranked(jobs@, now as int, r@),
        decreases jobs.len() - i,
    {
        let job = &jobs[i];
        let matched = if filter.matches(job) {
            let t = chars_of(section_title_exec(job));
            crate::text::seq_eq(&t, title)
        } else {
            false
        };
        if matched {
            let ghost old_r = r@;
            let p = insert_ranked(&mut r, jobs, now, i);
            proof {
                old_r.insert_ensures(p as int, i);
                assert forall|a: int, b: int| 0 <= a < r.len() && 0 <= b < r.len() && a != b implies r@[a] != r@[b] by {
                    if a != p {
                        assert(r@[a] == old_r[if a < p { a } else { a - 1 }]);
                    }
                    if b != p {
                        assert(r@[b] == old_r[if b < p { b } else { b - 1 }]);
                    }
                }
                assert forall|t: int| 0 <= t < r.len() implies #[trigger] r@[t] < i + 1 by {
                    if t != p {
                        assert(r@[t] == old_r[if t < p { t } else { t - 1 }]);
                    }
                }
                assert forall|t: int|
                    0 <= t < r.len() implies #[trigger] listed_under(jobs@, filter, title@, r@[t] as int) by {
                    if t != p {
                        assert(r@[t] == old_r[if t < p { t } else { t - 1 }]);
                    }
                }
                assert forall|m: int|
                    0 <= m < i + 1 && #[trigger] listed_under(jobs@, filter, title@, m) implies r@.contains(m as usize) by {
                    if m < i {
                        let t = choose|t: int| 0 <= t < old_r.len() && old_r[t] == m as usize;
                        if t < p {
                            assert(r@[t] == old_r[t]);
                        } else {
                            assert(r@[t + 1] == old_r[t]);
                        }
                    } else {
                        assert(r@[p as int] == i);
                    }
                }
            }
        } else {
            proof {
                assert forall|m: int|
                    0 <= m < i + 1 && #[trigger] listed_under(jobs@, filter, title@, m) implies r@.contains(m as usize) by {
                    if m == i {
                        assert(listed_under(jobs@, filter, title@, i as int));
                    }
                }
            }
        }
        i = i + 1;
    }
    r
}

/// One machine section: its title and the rows it lists, as indices into
/// the snapshot's jobs.
pub struct MachineSection {
    pub title: String,
    pub jobs: Vec<usize>,
}

/// The titles of a list of sections.
pub open spec fn section_titles(secs: Seq<MachineSection>) -> Seq<Seq<char>> {
    secs.map_values(|s: MachineSection| s.title@)
}

/// `secs` group the jobs `filter` shows by machine: one non-empty section per
/// title, in title order, each listing its jobs most pressing first.
pub open spec fn sections_of(jobs: Seq<JobView>, filter: StatusFilter, now: int, secs: Seq<MachineSection>) -> bool {
    &&& titles_of(jobs, filter, section_titles(secs))
    &&& forall|k: int|
        0 <= k < secs.len() ==> section_of(jobs, filter, now, secs[k].title@, #[trigger] secs[k].jobs@)
    &&& forall|k: int| 0 <= k < secs.len() ==> (#[trigger] secs[k]).jobs@.len() > 0
}

/// Every section's rows, in section order.
pub open spec fn flatten(secs: Seq<MachineSection>) -> Seq<usize>
    decreases secs.len(),
{
    if secs.len() == 0 {
        Seq::empty()
    } else {
        flatten(secs.drop_last()) + secs.last().jobs@
    }
}

/// Group the jobs `filter` shows into machine sections.
fn build_sections(jobs: &[JobView], filter: StatusFilter, now: i128) -> (r: (Vec<MachineSection>, Vec<usize>))
    ensures
        sections_of(jobs@, filter, now as int, r.0@),
        r.1@ == flatten(r.0@),
{
    let titles = collect_titles(jobs, filter);
    let mut secs: Vec<MachineSection> = Vec::new();
    let mut visible: Vec<usize> = Vec::new();
    let mut k: usize = 0;
    while k < titles.len()
        invariant
            k <= titles.len(),
            titles_of(jobs@, filter, char_views(titles@)),
            secs.len() == k,
            forall|a: int| 0 <= a < k ==> (#[trigger] secs@[a]).title@ == titles@[a]@,
            forall|a: int|
                0 <= a < k ==> section_of(jobs@, filter, now as int, secs@[a].title@, #[trigger] secs@[a].jobs@),
            forall|a: int| 0 <= a < k ==> (#[trigger] secs@[a]).jobs@.len() > 0,
            visible@ == flatten(secs@),
        decreases titles.len() - k,
    {
        let section = collect_section(jobs, filter, now, &titles[k]);
        proof {
            assert(char_views(titles@)[k as int] == titles@[k as int]@);
            assert(shown_title(jobs@, filter, char_views(titles@)[k as int]));
            let i = choose|i: int|
                0 <= i < jobs@.len() && shows(filter, #[trigger] jobs@[i]) && section_title(jobs@[i])
                    == titles@[k as int]@;
            assert(listed_under(jobs@, filter, titles@[k as int]@, i));
        }
        let mut j: usize = 0;
        let ghost before = visible@;
        while j < section.len()
            invariant
                j <= section.len(),
                visible@ == before + section@.take(j as int),
            decreases section.len() - j,
        {
            visible.push(section[j]);
            j = j + 1;
            assert(visible@ =~= before + section@.take(j as int));
        }
        assert(section@.take(section.len() as int) =~= section@);
        let ghost old_secs = secs@;
        secs.push(MachineSection { title: crate::text::string_of(&titles[k]), jobs: section });
        proof {
            assert(secs@.drop_last() =~= old_secs);
        }
        k = k + 1;
    }
    proof {
        assert(section_titles(secs@) =~= char_views(titles@));
    }
    (secs, visible)
}

/// Every row of the flattened sections is a job of the list.
proof fn lemma_flatten_rows(jobs: Seq<JobView>, filter: StatusFilter, now: int, secs: Seq<MachineSection>)
    requires
        forall|k: int|
            0 <= k < secs.len() ==> section_of(jobs, filter, now, secs[k].title@, #[trigger] secs[k].jobs@),
    ensures
        forall|t: int| 0 <= t < flatten(secs).len() ==> #[trigger] flatten(secs)[t] < jobs.len(),
    decreases secs.len(),
{
    if secs.len() > 0 {
        let init = secs.drop_last();
        assert forall|k: int|
            0 <= k < init.len() implies section_of(jobs, filter, now, init[k].title@, #[trigger] init[k].jobs@) by {
            assert(init[k] == secs[k]);
        }
        lemma_flatten_rows(jobs, filter, now, init);
        let last = secs.last().jobs@;
        assert(section_of(jobs, filter, now, secs.last().title@, secs[secs.len() - 1].jobs@));
        assert forall|t: int| 0 <= t < flatten(secs).len() implies #[trigger] flatten(secs)[t] < jobs.len() by {
            if t >= flatten(init).len() {
                let u = t - flatten(init).len();
                assert(flatten(secs)[t] == last[u]);
                assert(listed_under(jobs, filter, secs.last().title@, last[u] as int));
            } else {
                assert(flatten(secs)[t] == flatten(init)[t]);
            }
        }
    }
}

/// The first row of `visible` holding the job with id `id`.
pub open spec fn find_row(jobs: Seq<JobView>, visible: Seq<usize>, id: Seq<char>) -> Option<int>
    decreases visible.len(),
{
    if visible.len() == 0 {
        None
    } else {
        match find_row(jobs, visible.drop_last(), id) {
            Some(t) => Some(t),
            None => if jobs[visible.last() as int].id@ == id {
                Some(visible.len() - 1)
            } else {
                None
            },
        }
    }
}

/// The id of the first job whose producer process is one of `pids`.
pub open spec fn running_as(jobs: Seq<JobView>, pids: Seq<u32>) -> Option<Seq<char>>
    decreases jobs.len(),
{
    if jobs.len() == 0 {
        None
    } else {
        match running_as(jobs.drop_last(), pids) {
            Some(id) => Some(id),
            None => match jobs.last().extensions.pid {
                Some(pid) => if pids.contains(pid) {
                    Some(jobs.last().id@)
                } else {
                    None
                },
                None => None,
            },
        }
    }
}

/// Id of the job whose producer process is one of `pids`.
///
/// A pane runs a shell and whatever it launched, so several pids share one
/// terminal; exactly one of them is what a producer reported as its own.
pub fn job_running_as(jobs: &[JobView], pids: &[u32]) -> (r: Option<String>)
    ensures
        opt_string_view(r) == running_as(jobs@, pids@),
{
    let mut i: usize = 0;
    while i < jobs.len()
        invariant
            i <= jobs.len(),
            running_as(jobs@.take(i as int), pids@) is None,
        decreases jobs.len() - i,
    {
        assert(jobs@.take(i + 1).drop_last() =~= jobs@.take(i as int));
        if let Some(pid) = jobs[i].extensions.pid {
            let mut k: usize = 0;
            let mut hit = false;
            while k < pids.len()
                invariant
                    k <= pids.len(),
                    hit == exists|a: int| 0 <= a < k && pids@[a] == pid,
                decreases pids.len() - k,
            {
                if pids[k] == pid {
                    hit = true;
                }
                k = k + 1;
            }
            if hit {
                assert(jobs@.take(i + 1).last() == jobs@[i as int]);
                proof {
                    let a = choose|a: int| 0 <= a < pids.len() && pids@[a] == pid;
                    assert(pids@.contains(pid));
                }
                let r = Some(jobs[i].id.clone());
                proof {
                    lemma_running_as_prefix(jobs@, pids@, i as int + 1);
                }
                return r;
            }
            assert(!pids@.contains(pid));
        }
        i = i + 1;
    }
    assert(jobs@.take(jobs.len() as int) =~= jobs@);
    None
}

/// A hit within a prefix is the hit of the whole list.
proof fn lemma_running_as_prefix(jobs: Seq<JobView>, pids: Seq<u32>, n: int)
    requires
        0 <= n <= jobs.len(),
        running_as(jobs.take(n), pids) is Some,
    ensures
        running_as(jobs, pids) == running_as(jobs.take(n), pids),
    decreases jobs.len() - n,
{
    if n < jobs.len() {
        assert(jobs.take(n + 1).drop_last() =~= jobs.take(n));
        lemma_running_as_prefix(jobs, pids, n + 1);
    } else {
        assert(jobs.take(n) =~= jobs);
    }
}

/// The row a row index `row` of the job list lands on, counting each
/// section's title line as a row that holds no job; `base` is the number of
/// jobs before the first section.
pub open spec fn row_job(secs: Seq<MachineSection>, row: int, base: int) -> Option<int>
    decreases secs.len(),
{
    if secs.len() == 0 || row < 0 {
        None
    } else {
        let n = secs[0].jobs@.len() as int;
        if row == 0 {
            None
        } else if row - 1 < n {
            Some(base + row - 1)
        } else {
            row_job(secs.drop_first(), row - 1 - n, base + n)
        }
    }
}

/// What the hub has published, as the sidebar last received it.
pub struct JobsSnapshot {
    pub jobs: Vec<JobView>,
    pub offline: bool,
}

/// Floor between two git snapshots, in milliseconds. A snapshot is several
/// subprocesses; the Git panel does not need them several times a second.
pub const GIT_MIN_INTERVAL_MS: u64 = 2000;

/// The sidebar's state: the jobs it lists, how they group and sort, where the
/// cursor stands, and what the bottom panel shows.
///
/// The cursor holds a job, not a row: the list re-sorts on every frame, so a
/// job arriving or merely reporting activity slides rows under a cursor that
/// never moved. Anchoring by id keeps the selection, and with it the preview
/// and the Git panel, on the job the human chose.
pub struct AppState<R: TmuxRunner> {
    /// Row the cursor is on, among the rows the filter leaves.
    pub selected_index: usize,
    pub bottom_tab: BottomTab,
    pub bottom_scroll: u16,
    /// Panel folded to its title line, so a long list gets the whole pane.
    pub bottom_collapsed: bool,
    pub git_snapshot: GitSnapshot,
    /// The instant rows are aged against, as Unix nanoseconds.
    pub now: i128,
    pub bottom_height: u16,
    /// Last known pane size, so wrapped content can be measured before it is
    /// drawn.
    pub viewport: (u16, u16),
    pub preview: PanePreview<R>,
    status_filter: StatusFilter,
    selected_id: Option<String>,
    jobs: Vec<JobView>,
    offline: bool,
    sections: Vec<MachineSection>,
    visible: Vec<usize>,
    git_path: Option<String>,
    git_checked: u64,
    sorted_at: Ghost<int>,
}

impl<R: TmuxRunner> AppState<R> {
    pub closed spec fn jobs_view(&self) -> Seq<JobView> {
        self.jobs@
    }

    /// The row the cursor is on.
    pub closed spec fn cursor(&self) -> usize {
        self.selected_index
    }

    pub closed spec fn tab(&self) -> BottomTab {
        self.bottom_tab
    }

    pub closed spec fn scroll(&self) -> u16 {
        self.bottom_scroll
    }

    pub closed spec fn collapsed(&self) -> bool {
        self.bottom_collapsed
    }

    pub closed spec fn panel_height(&self) -> u16 {
        self.bottom_height
    }

    pub closed spec fn instant(&self) -> i128 {
        self.now
    }

    pub closed spec fn pane_size(&self) -> (u16, u16) {
        self.viewport
    }

    pub closed spec fn git(&self) -> GitSnapshot {
        self.git_snapshot
    }

    pub closed spec fn sections_view(&self) -> Seq<MachineSection> {
        self.sections@
    }

    /// The rows the filter leaves, as indices into the jobs, in list order.
    pub closed spec fn visible_view(&self) -> Seq<usize> {
        self.visible@
    }

    pub closed spec fn filter(&self) -> StatusFilter {
        self.status_filter
    }

    /// The id of the job the cursor is anchored to.
    pub closed spec fn anchor(&self) -> Option<Seq<char>> {
        opt_string_view(self.selected_id)
    }

    pub closed spec fn is_offline(&self) -> bool {
        self.offline
    }

    /// The instant the sections were sorted at.
    pub closed spec fn sorted_at(&self) -> int {
        self.sorted_at@
    }

    /// The path the Git panel describes; `None` when it needs recomputing.
    pub closed spec fn git_path(&self) -> Option<Seq<char>> {
        opt_string_view(self.git_path)
    }

    /// When the Git panel was last recomputed, in milliseconds.
    pub closed spec fn git_checked(&self) -> u64 {
        self.git_checked
    }

    /// The sections group the jobs the filter shows, and the rows are their
    /// rows in order.
    pub closed spec fn wf(&self) -> bool {
        &&& sections_of(self.jobs@, self.status_filter, self.sorted_at@, self.sections@)
        &&& self.visible@ == flatten(self.sections@)
        &&& forall|t: int| 0 <= t < self.visible@.len() ==> #[trigger] self.visible@[t] < self.jobs@.len()
    }

    /// The job under the cursor.
    pub closed spec fn selected_spec(&self) -> Option<JobView> {
        if self.selected_index < self.visible_view().len() {
            Some(self.jobs_view()[self.visible_view()[self.selected_index as int] as int])
        } else {
            None
        }
    }

    /// An empty list over `preview`, with a panel `bottom_height` rows tall.
    pub fn new(preview: PanePreview<R>, bottom_height: u16, now: i128) -> (s: Self)
        ensures
            s.wf(),
            s.jobs_view().len() == 0,
            s.visible_view().len() == 0,
            s.filter() == StatusFilter::All,
            s.anchor().is_none(),
            s.cursor() == 0,
            s.tab() == BottomTab::Prompt,
            s.scroll() == 0,
            !s.collapsed(),
            s.panel_height() == bottom_height,
            s.instant() == now,
            s.git_path().is_none(),
    {
        let s = AppState {
            selected_index: 0,
            bottom_tab: BottomTab::Prompt,
            bottom_scroll: 0,
            bottom_collapsed: false,
            git_snapshot: GitSnapshot::default(),
            now,
            bottom_height,
            viewport: (0, 0),
            preview,
            status_filter: StatusFilter::All,
            selected_id: None,
            jobs: Vec::new(),
            offline: false,
            sections: Vec::new(),
            visible: Vec::new(),
            git_path: None,
            git_checked: 0,
            sorted_at: Ghost(now as int),
        };
        proof {
            assert(section_titles(s.sections@) =~= Seq::<Seq<char>>::empty());
        }
        s
    }

    pub fn jobs(&self) -> (r: &[JobView])
        ensures
            r@ == self.jobs_view(),
    {
        self.jobs.as_slice()
    }

    pub fn offline(&self) -> (b: bool)
        ensures
            b == self.is_offline(),
    {
        self.offline
    }

    /// Sections grouped by machine alias.
    pub fn sections(&self) -> (r: &[MachineSection])
        ensures
            r@ == self.sections_view(),
    {
        self.sections.as_slice()
    }

    pub fn job_at(&self, index: usize) -> (r: Option<&JobView>)
        ensures
            match r {
                Some(job) => index < self.jobs_view().len() && *job == self.jobs_view()[index as int],
                None => index >= self.jobs_view().len(),
            },
    {
        if index < self.jobs.len() {
            Some(&self.jobs[index])
        } else {
            None
        }
    }

    /// How many jobs the current filter leaves selectable.
    pub fn visible_len(&self) -> (n: usize)
        ensures
            n == self.visible_view().len(),
    {
        self.visible.len()
    }

    pub fn selected_job(&self) -> (r: Option<&JobView>)
        requires
            self.wf(),
        ensures
            match r {
                Some(job) => self.selected_spec() == Some(*job),
                None => self.selected_spec().is_none(),
            },
    {
        if self.selected_index < self.visible.len() {
            Some(&self.jobs[self.visible[self.selected_index]])
        } else {
            None
        }
    }

    /// Group, sort and flatten the current snapshot.
    fn rebuild_sections(&mut self)
        ensures
            final(self).wf(),
            final(self).sorted_at() == old(self).instant(),
            final(self).jobs_view() == old(self).jobs_view(),
            final(self).filter() == old(self).filter(),
            final(self).anchor() == old(self).anchor(),
            final(self).cursor() == old(self).cursor(),
            final(self).instant() == old(self).instant(),
            final(self).is_offline() == old(self).is_offline(),
            final(self).git_path() == old(self).git_path(),
            final(self).scroll() == old(self).scroll(),
            final(self).same_panel(old(self)),
    {
        let (secs, visible) = build_sections(self.jobs.as_slice(), self.status_filter, self.now);
        proof {
            lemma_flatten_rows(self.jobs@, self.status_filter, self.now as int, secs@);
        }
        self.sections = secs;
        self.visible = visible;
        self.sorted_at = Ghost(self.now as int);
    }

    /// Where the cursor lands after the list changed: on the row holding the
    /// anchored job, else on row `fallback`, or the last row if there are
    /// fewer.
    pub open spec fn restored(&self, fallback: usize) -> int {
        let count = self.visible_view().len() as int;
        match self.anchor() {
            Some(id) => match find_row(self.jobs_view(), self.visible_view(), id) {
                Some(t) => t,
                None => if fallback < count { fallback as int } else { count - 1 },
            },
            None => if fallback < count { fallback as int } else { count - 1 },
        }
    }

    /// The cursor is at row `row` and anchored to the job there; with no rows
    /// it is at the top and anchored to nothing.
    /// The row the cursor of `self` goes to in the list of `after`: the row
    /// of the job it is anchored to while that job is listed, else its own
    /// row, or the last row of a shorter list.
    pub open spec fn follow_row(&self, after: Self) -> int {
        let kept = if self.cursor() < after.visible_view().len() {
            self.cursor() as int
        } else {
            after.visible_view().len() - 1
        };
        match self.anchor() {
            Some(id) => match find_row(after.jobs_view(), after.visible_view(), id) {
                Some(t) => t,
                None => kept,
            },
            None => kept,
        }
    }

    /// The cursor follows its job across a refresh: when the job it was
    /// anchored to is still listed, that job is the one selected after;
    /// otherwise the cursor keeps its row, or takes the last row of a
    /// shorter list; with nothing listed, nothing is selected.
    pub proof fn lemma_cursor_follows_job(before: Self, after: Self)
        requires
            after.wf(),
            after.visible_view().len() == 0 ==> after.rests_at(0),
            after.visible_view().len() > 0 ==> after.rests_at(before.follow_row(after)),
        ensures
            before.anchor() is Some && find_row(after.jobs_view(), after.visible_view(), before.anchor().unwrap())
                is Some ==> (after.selected_spec() matches Some(j) && j.id@ == before.anchor().unwrap()),
            after.visible_view().len() > 0 && (before.anchor() is None || find_row(
                after.jobs_view(),
                after.visible_view(),
                before.anchor().unwrap(),
            ) is None) ==> after.selected_spec() is Some && after.cursor() == if before.cursor()
                < after.visible_view().len() {
                before.cursor() as int
            } else {
                after.visible_view().len() - 1
            },
            after.visible_view().len() == 0 ==> after.selected_spec() is None,
    {
        if let Some(id) = before.anchor() {
            lemma_find_row_range(after.jobs_view(), after.visible_view(), id);
            if let Some(t) = find_row(after.jobs_view(), after.visible_view(), id) {
                lemma_find_row_hit(after.jobs_view(), after.visible_view(), id);
                assert(after.visible_view()[t] < after.jobs_view().len());
            }
        }
    }

    pub open spec fn rests_at(&self, row: int) -> bool {
        if self.visible_view().len() == 0 {
            self.cursor() == 0 && self.anchor().is_none()
        } else {
            &&& self.cursor() == row
            &&& 0 <= row < self.visible_view().len()
            &&& self.anchor() == Some(self.jobs_view()[self.visible_view()[row] as int].id@)
        }
    }

    /// The same list, sorted the same way.
    pub open spec fn same_list(&self, other: &Self) -> bool {
        &&& self.jobs_view() == other.jobs_view()
        &&& self.sections_view() == other.sections_view()
        &&& self.visible_view() == other.visible_view()
        &&& self.filter() == other.filter()
        &&& self.sorted_at() == other.sorted_at()
        &&& self.is_offline() == other.is_offline()
    }

    /// The panel settings other than what the cursor resets.
    pub open spec fn same_panel(&self, other: &Self) -> bool {
        &&& self.tab() == other.tab()
        &&& self.collapsed() == other.collapsed()
        &&& self.panel_height() == other.panel_height()
        &&& self.instant() == other.instant()
        &&& self.pane_size() == other.pane_size()
        &&& self.git() == other.git()
        &&& self.git_checked() == other.git_checked()
    }

    /// Row holding the anchored job, if the list still has it.
    fn anchor_row(&self) -> (r: Option<usize>)
        requires
            self.wf(),
        ensures
            match self.anchor() {
                Some(id) => match find_row(self.jobs_view(), self.visible_view(), id) {
                    Some(t) => r == Some(t as usize),
                    None => r is None,
                },
                None => r is None,
            },
    {
        match &self.selected_id {
            None => None,
            Some(anchor) => {
                assert(self.anchor() == Some(anchor@));
                let mut t: usize = 0;
                while t < self.visible.len()
                    invariant
                        self.wf(),
                        self.anchor() == Some(anchor@),
                        t <= self.visible@.len(),
                        find_row(self.jobs@, self.visible@.take(t as int), anchor@) is None,
                    decreases self.visible@.len() - t,
                {
                    assert(self.visible@.take(t + 1).drop_last() =~= self.visible@.take(t as int));
                    assert(self.visible@[t as int] < self.jobs@.len());
                    if self.jobs[self.visible[t]].id == *anchor {
                        proof {
                            assert(self.visible@.take(t + 1).last() == self.visible@[t as int]);
                            assert(find_row(self.jobs@, self.visible@.take(t + 1), anchor@) == Some(t as int));
                            lemma_find_row_prefix(self.jobs@, self.visible@, anchor@, t + 1);
                            assert(find_row(self.jobs_view(), self.visible_view(), anchor@) == Some(t as int));
                        }
                        return Some(t);
                    }
                    t = t + 1;
                }
                assert(self.visible@.take(t as int) =~= self.visible@);
                None
            },
        }
    }

    fn job_id_at_cursor(&self) -> (r: Option<String>)
        requires
            self.wf(),
        ensures
            opt_string_view(r) == match self.selected_spec() {
                Some(job) => Some(job.id@),
                None => None,
            },
    {
        match self.selected_job() {
            Some(job) => Some(job.id.clone()),
            None => None,
        }
    }

    /// Put the cursor back on the job it was holding after the list changed.
    ///
    /// `fallback` is the row to take when that job is not in the list any
    /// more (it ended, or a filter hides it): the closest thing to where the
    /// cursor was standing.
    pub fn restore_selection(&mut self, fallback: usize)
        requires
            old(self).wf(),
        ensures
            final(self).wf(),
            final(self).same_list(old(self)),
            final(self).same_panel(old(self)),
            final(self).scroll() == old(self).scroll(),
            final(self).git_path() == old(self).git_path(),
            final(self).rests_at(old(self).restored(fallback)),
    {
        let count = self.visible.len();
        if count == 0 {
            self.selected_index = 0;
            self.selected_id = None;
            return;
        }
        proof {
            if let Some(id) = self.anchor() {
                lemma_find_row_range(self.jobs@, self.visible@, id);
            }
        }
        self.selected_index = match self.anchor_row() {
            Some(t) => t,
            None => if fallback < count {
                fallback
            } else {
                count - 1
            },
        };
        self.selected_id = self.job_id_at_cursor();
    }

    /// Move the cursor `delta` rows, stopping at either end of the list.
    pub fn move_selection(&mut self, delta: isize)
        requires
            old(self).wf(),
        ensures
            final(self).wf(),
            final(self).same_list(old(self)),
            final(self).same_panel(old(self)),
            old(self).visible_view().len() == 0 ==> final(self).rests_at(0) && final(self).scroll()
                == old(self).scroll() && final(self).git_path() == old(self).git_path(),
            old(self).visible_view().len() > 0 ==> {
                let next = old(self).cursor() + delta;
                let last = old(self).visible_view().len() - 1;
                &&& final(self).rests_at(
                    if next < 0 {
                        0
                    } else if next > last {
                        last
                    } else {
                        next
                    },
                )
                &&& final(self).scroll() == 0
                &&& final(self).git_path().is_none()
            },
    {
        let count = self.visible.len();
        if count == 0 {
            self.selected_index = 0;
            self.selected_id = None;
            return;
        }
        let next: i128 = self.selected_index as i128 + delta as i128;
        let last: i128 = (count - 1) as i128;
        self.selected_index = if next < 0 {
            0
        } else if next > last {
            count - 1
        } else {
            next as usize
        };
        self.selected_id = self.job_id_at_cursor();
        self.bottom_scroll = 0;
        self.git_path = None;
    }

    /// Put the cursor on flat row `index`, or on the last row if there are
    /// fewer.
    pub fn select_global_index(&mut self, index: usize)
        requires
            old(self).wf(),
        ensures
            final(self).wf(),
            final(self).same_list(old(self)),
            final(self).same_panel(old(self)),
            old(self).visible_view().len() == 0 ==> final(self).rests_at(0) && final(self).scroll()
                == old(self).scroll() && final(self).git_path() == old(self).git_path(),
            old(self).visible_view().len() > 0 ==> {
                &&& final(self).rests_at(
                    if index < old(self).visible_view().len() {
                        index as int
                    } else {
                        old(self).visible_view().len() - 1
                    },
                )
                &&& final(self).scroll() == 0
                &&& final(self).git_path().is_none()
            },
    {
        let count = self.visible.len();
        if count == 0 {
            self.selected_index = 0;
            self.selected_id = None;
            return;
        }
        self.selected_index = if index < count {
            index
        } else {
            count - 1
        };
        self.selected_id = self.job_id_at_cursor();
        self.bottom_scroll = 0;
        self.git_path = None;
    }

    /// Switch the filter bar and re-derive everything that depends on it.
    ///
    /// A selection the new filter still shows is kept: cycling filters to
    /// look around and coming back must not lose the job you were on. One the
    /// filter hides falls to the top of the list.
    pub fn set_filter(&mut self, filter: StatusFilter)
        requires
            old(self).wf(),
        ensures
            final(self).wf(),
            final(self).filter() == filter,
            final(self).jobs_view() == old(self).jobs_view(),
            final(self).sorted_at() == old(self).instant(),
            final(self).same_panel(old(self)),
            final(self).scroll() == old(self).scroll(),
            final(self).git_path().is_none(),
            final(self).visible_view().len() == 0 ==> final(self).rests_at(0),
            final(self).visible_view().len() > 0 ==> final(self).rests_at(
                match old(self).anchor() {
                    Some(id) => match find_row(final(self).jobs_view(), final(self).visible_view(), id) {
                        Some(t) => t,
                        None => 0,
                    },
                    None => 0,
                },
            ),
    {
        self.status_filter = filter;
        self.rebuild_sections();
        self.restore_selection(0);
        self.git_path = None;
    }

    /// Take what the hub has published, if anything new, and re-derive the
    /// view; `now` ages the rows either way. Answers whether a new snapshot
    /// arrived.
    ///
    /// The row the cursor was on may now belong to another job; the job it
    /// was on is what it keeps.
    pub fn refresh_from_hub(&mut self, snapshot: Option<JobsSnapshot>, now: i128) -> (arrived: bool)
        requires
            old(self).wf(),
        ensures
            final(self).wf(),
            arrived == snapshot.is_some(),
            final(self).instant() == now,
            final(self).filter() == old(self).filter(),
            final(self).scroll() == old(self).scroll(),
            final(self).git_path() == old(self).git_path(),
            match snapshot {
                None => final(self).same_list(old(self)) && final(self).cursor() == old(self).cursor()
                    && final(self).anchor() == old(self).anchor(),
                Some(s) => {
                    &&& final(self).jobs_view() == s.jobs@
                    &&& final(self).is_offline() == s.offline
                    &&& final(self).sorted_at() == now
                    &&& final(self).visible_view().len() == 0 ==> final(self).rests_at(0)
                    &&& final(self).visible_view().len() > 0 ==> final(self).rests_at(old(self).follow_row(*final(self)))
                },
            },
    {
        self.now = now;
        match snapshot {
            None => false,
            Some(s) => {
                self.jobs = s.jobs;
                self.offline = s.offline;
                self.rebuild_sections();
                let fallback = self.selected_index;
                self.restore_selection(fallback);
                true
            },
        }
    }

    /// The row the cursor is on.
    pub fn selected_row(&self) -> (r: usize)
        ensures
            r == self.cursor(),
    {
        self.selected_index
    }

    /// The instant rows are aged against.
    pub fn now_nanos(&self) -> (r: i128)
        ensures
            r == self.instant(),
    {
        self.now
    }

    pub fn panel_rows(&self) -> (r: u16)
        ensures
            r == self.panel_height(),
    {
        self.bottom_height
    }

    pub fn current_tab(&self) -> (r: BottomTab)
        ensures
            r == self.tab(),
    {
        self.bottom_tab
    }

    pub fn is_collapsed(&self) -> (r: bool)
        ensures
            r == self.collapsed(),
    {
        self.bottom_collapsed
    }

    pub fn scroll_offset(&self) -> (r: u16)
        ensures
            r == self.scroll(),
    {
        self.bottom_scroll
    }

    pub fn git_view(&self) -> (r: &GitSnapshot)
        ensures
            *r == self.git(),
    {
        &self.git_snapshot
    }

    pub fn status_filter(&self) -> (r: StatusFilter)
        ensures
            r == self.filter(),
    {
        self.status_filter
    }

    /// A cursor resting on a row selects the job of that row.
    pub proof fn lemma_resting_selects(&self, row: int)
        requires
            self.rests_at(row),
            self.visible_view().len() > 0,
        ensures
            self.selected_spec() == Some(self.jobs_view()[self.visible_view()[row] as int]),
    {
    }

    /// The cursor holds a job, not a row: once it rests on the row where the
    /// list shows the job with `id`, that job is the selection, whatever
    /// rows moved around it.
    pub proof fn lemma_selection_follows_the_job(&self, id: Seq<char>)
        requires
            self.wf(),
            find_row(self.jobs_view(), self.visible_view(), id) is Some,
            self.rests_at(find_row(self.jobs_view(), self.visible_view(), id).unwrap()),
        ensures
            self.selected_spec() matches Some(job) && job.id@ == id,
            self.anchor() == Some(id),
    {
        lemma_found_row_holds_the_job(self.jobs_view(), self.visible_view(), id);
    }

    /// Every row a section lists is a job of the list.
    pub proof fn lemma_rows_are_jobs(&self)
        requires
            self.wf(),
        ensures
            forall|k: int, j: int|
                0 <= k < self.sections_view().len() && 0 <= j < self.sections_view()[k].jobs@.len()
                    ==> #[trigger] self.sections_view()[k].jobs@[j] < self.jobs_view().len(),
            flatten(self.sections_view()) == self.visible_view(),
    {
        assert forall|k: int, j: int|
            0 <= k < self.sections_view().len() && 0 <= j < self.sections_view()[k].jobs@.len()
                implies #[trigger] self.sections_view()[k].jobs@[j] < self.jobs_view().len() by {
            assert(section_of(self.jobs@, self.status_filter, self.sorted_at@, self.sections@[k].title@, self.sections@[k].jobs@));
            assert(listed_under(self.jobs@, self.status_filter, self.sections@[k].title@, self.sections@[k].jobs@[j] as int));
        }
    }

    pub closed spec fn pane_preview(&self) -> PanePreview<R> {
        self.preview
    }

    /// What the Prompt panel shows: the selected job's last prompt, trimmed,
    /// when it has one that is not blank.
    pub open spec fn prompt_spec(&self) -> Option<Seq<char>> {
        match self.selected_spec() {
            Some(job) => match job.extensions.last_prompt {
                Some(p) => if trim(p@).len() > 0 {
                    Some(trim(p@))
                } else {
                    None
                },
                None => None,
            },
            None => None,
        }
    }

    /// Rows the panel occupies inside a pane `total` rows tall: its height,
    /// leaving the list at least four rows; collapsed, its title line alone.
    pub open spec fn bottom_rows_spec(&self, total: u16) -> u16 {
        if self.collapsed() {
            1
        } else {
            let room: int = if total >= 4 { total - 4 } else { 0 };
            if self.panel_height() <= room {
                self.panel_height()
            } else {
                room as u16
            }
        }
    }

    /// Lines the panel's content needs, capped at what a `usize` holds.
    pub open spec fn panel_lines(&self) -> nat {
        let n: nat = match self.tab() {
            BottomTab::Prompt => match self.prompt_spec() {
                Some(p) => wrapped_lines_spec(p, self.pane_size().0 as nat),
                None => 1,
            },
            BottomTab::Git => if self.git().error.is_some() {
                1
            } else {
                (1 + self.git().staged@.len() + self.git().unstaged@.len() + self.git().untracked@.len()) as nat
            },
        };
        if n <= usize::MAX {
            n
        } else {
            usize::MAX as nat
        }
    }

    /// The last scroll offset that still shows content.
    pub open spec fn max_scroll(&self) -> u16 {
        let shown: int = self.bottom_rows_spec(self.pane_size().1) - 1;
        let lines = (self.panel_lines() as usize) as u16;
        if shown <= 0 {
            lines
        } else if lines >= shown {
            (lines - shown) as u16
        } else {
            0
        }
    }

    /// Rows the panel occupies inside a pane `total` rows tall.
    ///
    /// Collapsed it keeps its title line: a panel that vanished completely
    /// would leave nothing to click, and no hint that it exists.
    pub fn bottom_rows(&self, total: u16) -> (n: u16)
        ensures
            n == self.bottom_rows_spec(total),
    {
        if self.bottom_collapsed {
            return 1;
        }
        let room = total.saturating_sub(4);
        if self.bottom_height <= room {
            self.bottom_height
        } else {
            room
        }
    }

    /// What the Prompt panel shows for the selection, if anything.
    pub fn prompt_text(&self) -> (r: Option<&str>)
        requires
            self.wf(),
        ensures
            match r {
                Some(p) => self.prompt_spec() == Some(p@),
                None => self.prompt_spec().is_none(),
            },
    {
        match self.selected_job() {
            None => None,
            Some(job) => match &job.extensions.last_prompt {
                None => None,
                Some(p) => {
                    let t = crate::text::trim_str(p.as_str());
                    if t.is_empty() {
                        None
                    } else {
                        Some(t)
                    }
                },
            },
        }
    }

    /// Last scroll offset that still shows content, so the panel cannot be
    /// scrolled into blankness.
    fn bottom_max_scroll(&self) -> (n: u16)
        requires
            self.wf(),
        ensures
            n == self.max_scroll(),
    {
        let (width, height) = self.viewport;
        let rows = self.bottom_rows(height);
        let lines: usize = match self.bottom_tab {
            BottomTab::Prompt => match self.prompt_text() {
                Some(prompt) => match wrapped_lines_checked(prompt, width) {
                    Some(n) => n,
                    None => usize::MAX,
                },
                None => 1,
            },
            BottomTab::Git => {
                let g = &self.git_snapshot;
                if g.error.is_some() {
                    1
                } else {
                    let a = g.staged.len().checked_add(g.unstaged.len());
                    let b = match a {
                        Some(a) => a.checked_add(g.untracked.len()),
                        None => None,
                    };
                    let c = match b {
                        Some(b) => b.checked_add(1),
                        None => None,
                    };
                    match c {
                        Some(c) => c,
                        None => usize::MAX,
                    }
                }
            },
        };
        let shown = rows.saturating_sub(1);
        let lines16 = lines as u16;
        lines16.saturating_sub(shown)
    }

    /// Scroll the detail panel. The selection never moves: the panel
    /// describes the selected job, it is not a second place to stand.
    pub fn scroll_bottom(&mut self, delta: i32)
        requires
            old(self).wf(),
            old(self).scroll() + delta <= i32::MAX,
        ensures
            final(self).wf(),
            final(self).same_list(old(self)),
            final(self).same_panel(old(self)),
            final(self).cursor() == old(self).cursor(),
            final(self).anchor() == old(self).anchor(),
            final(self).git_path() == old(self).git_path(),
            ({
                let next = old(self).scroll() + delta;
                let max = old(self).max_scroll();
                final(self).scroll() == if next < 0 {
                    0
                } else if next > max {
                    max as int
                } else {
                    next
                }
            }),
    {
        let max = self.bottom_max_scroll() as i32;
        let next = self.bottom_scroll as i32 + delta;
        self.bottom_scroll = if next < 0 {
            0
        } else if next > max {
            max as u16
        } else {
            next as u16
        };
    }

    pub fn set_bottom_tab(&mut self, tab: BottomTab)
        requires
            old(self).wf(),
        ensures
            final(self).wf(),
            final(self).same_list(old(self)),
            final(self).cursor() == old(self).cursor(),
            final(self).anchor() == old(self).anchor(),
            final(self).tab() == tab,
            final(self).scroll() == 0,
            tab == BottomTab::Git ==> final(self).git_path().is_none(),
            tab == BottomTab::Prompt ==> final(self).git_path() == old(self).git_path(),
    {
        self.bottom_tab = tab;
        self.bottom_scroll = 0;
        if tab == BottomTab::Git {
            self.git_path = None;
        }
    }

    pub fn toggle_bottom_tab(&mut self)
        requires
            old(self).wf(),
        ensures
            final(self).wf(),
            final(self).same_list(old(self)),
            final(self).tab() == (if old(self).tab() == BottomTab::Prompt {
                BottomTab::Git
            } else {
                BottomTab::Prompt
            }),
            final(self).scroll() == 0,
    {
        let next = match self.bottom_tab {
            BottomTab::Prompt => BottomTab::Git,
            BottomTab::Git => BottomTab::Prompt,
        };
        self.set_bottom_tab(next);
    }

    /// Fold the panel away, or bring it back where it was.
    pub fn toggle_bottom_collapsed(&mut self)
        ensures
            final(self).same_list(old(self)),
            final(self).collapsed() == !old(self).collapsed(),
            final(self).scroll() == 0,
            final(self).tab() == old(self).tab(),
            final(self).panel_height() == old(self).panel_height(),
            final(self).cursor() == old(self).cursor(),
            final(self).anchor() == old(self).anchor(),
            old(self).wf() ==> final(self).wf(),
    {
        self.bottom_collapsed = !self.bottom_collapsed;
        self.bottom_scroll = 0;
    }

    pub fn set_viewport(&mut self, width: u16, height: u16)
        ensures
            final(self).same_list(old(self)),
            final(self).pane_size() == (width, height),
            final(self).scroll() == old(self).scroll(),
            final(self).tab() == old(self).tab(),
            final(self).collapsed() == old(self).collapsed(),
            final(self).panel_height() == old(self).panel_height(),
            final(self).cursor() == old(self).cursor(),
            final(self).anchor() == old(self).anchor(),
            old(self).wf() ==> final(self).wf(),
    {
        self.viewport = (width, height);
    }

    /// Map a row of the job list (0 = first line below the filter bar) to a
    /// flat row. Section headers occupy a line but are not selectable.
    pub fn global_index_at_list_row(&self, row: usize) -> (r: Option<usize>)
        ensures
            match r {
                Some(g) => row_job(self.sections_view(), row as int, 0) == Some(g as int),
                None => row_job(self.sections_view(), row as int, 0).is_none(),
            },
    {
        let mut line: usize = 0;
        let mut global: usize = 0;
        let mut k: usize = 0;
        assert(self.sections@.skip(0) =~= self.sections@);
        while k < self.sections.len()
            invariant
                k <= self.sections@.len(),
                line <= row,
                global <= line,
                row_job(self.sections@, row as int, 0) == row_job(self.sections@.skip(k as int), row - line, global as int),
            decreases self.sections@.len() - k,
        {
            let n = self.sections[k].jobs.len();
            assert(self.sections@.skip(k as int)[0] == self.sections@[k as int]);
            if line == row {
                return None;
            }
            if row - line - 1 < n {
                return Some(global + (row - line - 1));
            }
            assert(self.sections@.skip(k as int).drop_first() =~= self.sections@.skip(k + 1));
            line = line + 1 + n;
            global = global + n;
            k = k + 1;
        }
        None
    }

    /// Move the cursor onto whatever job runs on the pane the human just
    /// walked into: `pids` are the processes on that pane's terminal, one of
    /// which the job's producer reported. A cursor already there is left
    /// alone. Answers whether the cursor moved.
    pub fn follow_focused_pane(&mut self, pids: &[u32]) -> (moved: bool)
        requires
            old(self).wf(),
        ensures
            final(self).wf(),
            final(self).same_list(old(self)),
            final(self).same_panel(old(self)),
            match running_as(old(self).jobs_view(), pids@) {
                Some(id) => if old(self).anchor() == Some(id) {
                    !moved && *final(self) == *old(self)
                } else {
                    &&& moved
                    &&& final(self).scroll() == 0
                    &&& final(self).git_path().is_none()
                    &&& final(self).rests_at(
                        match find_row(old(self).jobs_view(), old(self).visible_view(), id) {
                            Some(t) => t,
                            None => if old(self).cursor() < old(self).visible_view().len() {
                                old(self).cursor() as int
                            } else {
                                old(self).visible_view().len() - 1
                            },
                        },
                    )
                },
                None => !moved && *final(self) == *old(self),
            },
    {
        let id = match job_running_as(self.jobs.as_slice(), pids) {
            None => return false,
            Some(id) => id,
        };
        if let Some(current) = &self.selected_id {
            if *current == id {
                return false;
            }
        }
        self.selected_id = Some(id);
        let fallback = self.selected_index;
        self.restore_selection(fallback);
        self.bottom_scroll = 0;
        self.git_path = None;
        true
    }

    /// Mirror the selection into the preview slot, or empty the slot when
    /// nothing is selected; nothing happens when the slot already shows it.
    ///
    /// Called once per loop tick rather than per keypress: a swap is several
    /// tmux round-trips, and holding a key must not fire one per row crossed.
    pub fn sync_preview<P: JobPanes>(&mut self, now_ms: u64, panes: &mut P)
        requires
            old(self).wf(),
        ensures
            final(self).wf(),
            final(self).same_list(old(self)),
            final(self).same_panel(old(self)),
            final(self).cursor() == old(self).cursor(),
            final(self).anchor() == old(self).anchor(),
            final(self).scroll() == old(self).scroll(),
            final(self).git_path() == old(self).git_path(),
            match old(self).selected_spec() {
                Some(job) => crate::preview::show_steps(
                    old(self).pane_preview(),
                    final(self).pane_preview(),
                    job,
                    now_ms,
                ),
                None => {
                    &&& final(self).pane_preview().shown().is_none()
                    &&& if old(self).pane_preview().shown().is_none() {
                        final(self).pane_preview() == old(self).pane_preview()
                    } else {
                        old(self).pane_preview().unswapped(final(self).pane_preview().calls())
                    }
                },
            },
    {
        if self.selected_index < self.visible.len() {
            let job = &self.jobs[self.visible[self.selected_index]];
            if self.preview.is_showing(job) {
                return;
            }
            self.preview.show(job, now_ms, panes);
        } else {
            if self.preview.is_idle() {
                return;
            }
            self.preview.restore();
        }
    }

    /// The worktree the Git panel describes: the selected job's workspace,
    /// else the current directory.
    pub open spec fn git_target_spec(&self) -> Seq<char> {
        match self.selected_spec() {
            Some(job) => match job_path_spec(job) {
                Some(p) => p,
                None => seq!['.'],
            },
            None => seq!['.'],
        }
    }

    pub fn git_target(&self) -> (r: String)
        requires
            self.wf(),
        ensures
            r@ == self.git_target_spec(),
    {
        let found = match self.selected_job() {
            Some(job) => job_path(job),
            None => None,
        };
        match found {
            Some(p) => p,
            None => {
                let mut v: Vec<char> = Vec::new();
                v.push('.');
                crate::text::string_of(&v)
            },
        }
    }

    /// Whether the Git panel needs recomputing at `now_ms`, and for which
    /// worktree: only while it is showing, and only when the selection moved
    /// or the last snapshot is [`GIT_MIN_INTERVAL_MS`] old.
    pub fn git_refresh_due(&self, now_ms: u64) -> (r: Option<String>)
        requires
            self.wf(),
        ensures
            self.tab() != BottomTab::Git ==> r.is_none(),
            self.tab() == BottomTab::Git ==> {
                let fresh = now_ms < self.git_checked() || now_ms - self.git_checked() < GIT_MIN_INTERVAL_MS;
                if fresh && self.git_path() == Some(self.git_target_spec()) {
                    r.is_none()
                } else {
                    opt_string_view(r) == Some(self.git_target_spec())
                }
            },
    {
        if self.bottom_tab != BottomTab::Git {
            return None;
        }
        let fresh = now_ms < self.git_checked || now_ms - self.git_checked < GIT_MIN_INTERVAL_MS;
        let target = self.git_target();
        if fresh {
            if let Some(path) = &self.git_path {
                if *path == target {
                    return None;
                }
            }
        }
        Some(target)
    }

    /// Take a Git snapshot of [`Self::git_target`], made at `now_ms`.
    pub fn refresh_git(&mut self, snapshot: GitSnapshot, now_ms: u64)
        requires
            old(self).wf(),
        ensures
            final(self).wf(),
            final(self).same_list(old(self)),
            final(self).cursor() == old(self).cursor(),
            final(self).anchor() == old(self).anchor(),
            final(self).git() == snapshot,
            final(self).git_path() == Some(old(self).git_target_spec()),
            final(self).git_checked() == now_ms,
    {
        let path = self.git_target();
        self.git_snapshot = snapshot;
        self.git_path = Some(path);
        self.git_checked = now_ms;
    }
}

/// A hit within a prefix of the rows is the hit of all of them.
proof fn lemma_find_row_prefix(jobs: Seq<JobView>, visible: Seq<usize>, id: Seq<char>, n: int)
    requires
        0 <= n <= visible.len(),
        find_row(jobs, visible.take(n), id) is Some,
    ensures
        find_row(jobs, visible, id) == find_row(jobs, visible.take(n), id),
    decreases visible.len() - n,
{
    if n < visible.len() {
        assert(visible.take(n + 1).drop_last() =~= visible.take(n));
        lemma_find_row_prefix(jobs, visible, id, n + 1);
    } else {
        assert(visible.take(n) =~= visible);
    }
}

/// A row found is one of the rows.
proof fn lemma_find_row_hit(jobs: Seq<JobView>, visible: Seq<usize>, id: Seq<char>)
    ensures
        find_row(jobs, visible, id) matches Some(t) ==> jobs[visible[t] as int].id@ == id,
    decreases visible.len(),
{
    if visible.len() > 0 {
        lemma_find_row_hit(jobs, visible.drop_last(), id);
        lemma_find_row_range(jobs, visible.drop_last(), id);
    }
}

proof fn lemma_find_row_range(jobs: Seq<JobView>, visible: Seq<usize>, id: Seq<char>)
    ensures
        find_row(jobs, visible, id) matches Some(t) ==> 0 <= t < visible.len(),
    decreases visible.len(),
{
    if visible.len() > 0 {
        lemma_find_row_range(jobs, visible.drop_last(), id);
    }
}

/// Flattening peels the first section off the front as well.
pub proof fn lemma_flatten_first(secs: Seq<MachineSection>)
    requires
        secs.len() > 0,
    ensures
        flatten(secs) == secs[0].jobs@ + flatten(secs.drop_first()),
    decreases secs.len(),
{
    if secs.len() == 1 {
        assert(secs.drop_first() =~= Seq::<MachineSection>::empty());
        assert(secs.drop_last() =~= Seq::<MachineSection>::empty());
        assert(flatten(secs) =~= secs[0].jobs@ + flatten(secs.drop_first()));
    } else {
        lemma_flatten_first(secs.drop_last());
        assert(secs.drop_last().drop_first() =~= secs.drop_first().drop_last());
        assert(secs.drop_first().last() == secs.last());
        assert(flatten(secs) =~= secs[0].jobs@ + flatten(secs.drop_first()));
    }
}

/// A list row lands on one of the flat rows.
pub proof fn lemma_row_job_range(secs: Seq<MachineSection>, row: int, base: int)
    ensures
        row_job(secs, row, base) matches Some(g) ==> base <= g < base + flatten(secs).len(),
    decreases secs.len(),
{
    if secs.len() > 0 && row >= 0 {
        lemma_flatten_first(secs);
        lemma_row_job_range(secs.drop_first(), row - 1 - secs[0].jobs@.len(), base + secs[0].jobs@.len());
    }
}

/// The row found for a job holds that job: the first row whose job has the
/// id.
pub proof fn lemma_found_row_holds_the_job(jobs: Seq<JobView>, visible: Seq<usize>, id: Seq<char>)
    requires
        forall|t: int| 0 <= t < visible.len() ==> #[trigger] visible[t] < jobs.len(),
    ensures
        find_row(jobs, visible, id) matches Some(t) ==> {
            &&& 0 <= t < visible.len()
            &&& jobs[visible[t] as int].id@ == id
            &&& forall|u: int| 0 <= u < t ==> jobs[#[trigger] visible[u] as int].id@ != id
        },
        find_row(jobs, visible, id) is None ==> forall|u: int|
            0 <= u < visible.len() ==> jobs[#[trigger] visible[u] as int].id@ != id,
    decreases visible.len(),
{
    if visible.len() > 0 {
        let init = visible.drop_last();
        assert forall|t: int| 0 <= t < init.len() implies #[trigger] init[t] < jobs.len() by {
            assert(init[t] == visible[t]);
        }
        lemma_found_row_holds_the_job(jobs, init, id);
        assert forall|u: int| 0 <= u < init.len() implies init[u] == visible[u] by {}
    }
}

/// Grouping loses and duplicates nothing: every job the filter shows is
/// listed exactly once, in the section titled by its machine, and no section
/// lists a job the filter hides.
pub proof fn lemma_each_shown_job_listed_once(
    jobs: Seq<JobView>,
    filter: StatusFilter,
    now: int,
    secs: Seq<MachineSection>,
    i: usize,
)
    requires
        sections_of(jobs, filter, now, secs),
        i < jobs.len(),
    ensures
        shows(filter, jobs[i as int]) ==> exists|k: int|
            {
                &&& 0 <= k < secs.len()
                &&& secs[k].title@ == section_title(jobs[i as int])
                &&& secs[k].jobs@.contains(i)
                &&& forall|l: int| 0 <= l < secs.len() && l != k ==> !(#[trigger] secs[l]).jobs@.contains(i)
            },
        !shows(filter, jobs[i as int]) ==> forall|k: int|
            0 <= k < secs.len() ==> !(#[trigger] secs[k]).jobs@.contains(i),
        forall|k: int| 0 <= k < secs.len() ==> (#[trigger] secs[k]).jobs@.no_duplicates(),
{
    let titles = section_titles(secs);
    assert forall|k: int| 0 <= k < secs.len() implies (#[trigger] secs[k]).jobs@.no_duplicates() by {
        assert(section_of(jobs, filter, now, secs[k].title@, secs[k].jobs@));
    }
    assert forall|k: int| 0 <= k < secs.len() && (#[trigger] secs[k]).jobs@.contains(i) implies
        shows(filter, jobs[i as int]) && secs[k].title@ == section_title(jobs[i as int]) by {
        assert(section_of(jobs, filter, now, secs[k].title@, secs[k].jobs@));
        let t = choose|t: int| 0 <= t < secs[k].jobs@.len() && secs[k].jobs@[t] == i;
        assert(listed_under(jobs, filter, secs[k].title@, secs[k].jobs@[t] as int));
    }
    if shows(filter, jobs[i as int]) {
        assert(titles.contains(section_title(jobs[i as int])));
        let k = choose|k: int| 0 <= k < titles.len() && titles[k] == section_title(jobs[i as int]);
        assert(titles[k] == secs[k].title@);
        assert(section_of(jobs, filter, now, secs[k].title@, secs[k].jobs@));
        assert(listed_under(jobs, filter, secs[k].title@, i as int));
        assert forall|l: int| 0 <= l < secs.len() && l != k implies !(#[trigger] secs[l]).jobs@.contains(i) by {
            if secs[l].jobs@.contains(i) {
                assert(titles[l] == secs[l].title@);
                assert(titles[l] == titles[k]);
            }
        }
    }
}

} // verus!
