//! Git summary for the bottom panel, read from one `git status --porcelain=v1
//! -b` instead of five subprocesses (branch, ahead/behind, staged, unstaged,
//! untracked). Running git is the caller's business; this module reads what
//! it printed.
use vstd::prelude::*;

use crate::text::{
    before_first_in, chars_of, extend_range, find_char, is_ws, lines, parse_u32_in,
    parse_u32_spec, range_eq, string_of, string_of_range, sub_vec, trim, trim_range, word_spans,
    words,
};

verus! {

/// Rows the Git panel can show per section. Nothing past this is ever
/// rendered, so nothing past it is kept.
pub const LIST_CAP: usize = 6;

/// What one porcelain listing says of a worktree.
#[derive(Clone, Debug, PartialEq, Eq)]
pub struct GitSnapshot {
    pub branch: String,
    pub ahead: u32,
    pub behind: u32,
    pub staged: Vec<String>,
    pub unstaged: Vec<String>,
    pub untracked: Vec<String>,
    pub error: Option<String>,
}

/// The mathematical content of a [`GitSnapshot`].
pub struct GitSummary {
    pub branch: Seq<char>,
    pub ahead: u32,
    pub behind: u32,
    pub staged: Seq<Seq<char>>,
    pub unstaged: Seq<Seq<char>>,
    pub untracked: Seq<Seq<char>>,
    pub error: Option<Seq<char>>,
}

pub open spec fn string_views(rows: Seq<String>) -> Seq<Seq<char>> {
    rows.map_values(|s: String| s@)
}

pub open spec fn opt_string_view(s: Option<String>) -> Option<Seq<char>> {
    match s {
        Some(t) => Some(t@),
        None => None,
    }
}

impl View for GitSnapshot {
    type V = GitSummary;

    open spec fn view(&self) -> GitSummary {
        GitSummary {
            branch: self.branch@,
            ahead: self.ahead,
            behind: self.behind,
            staged: string_views(self.staged@),
            unstaged: string_views(self.unstaged@),
            untracked: string_views(self.untracked@),
            error: opt_string_view(self.error),
        }
    }
}

/// The summary of nothing read yet.
pub open spec fn empty_summary() -> GitSummary {
    GitSummary {
        branch: seq![],
        ahead: 0,
        behind: 0,
        staged: seq![],
        unstaged: seq![],
        untracked: seq![],
        error: None,
    }
}

impl Default for GitSnapshot {
    fn default() -> (r: Self)
        ensures
            r@ == empty_summary(),
    {
        let r = GitSnapshot {
            branch: String::new(),
            ahead: 0,
            behind: 0,
            staged: Vec::new(),
            unstaged: Vec::new(),
            untracked: Vec::new(),
            error: None,
        };
        assert(r@.staged =~= Seq::<Seq<char>>::empty());
        assert(r@.unstaged =~= Seq::<Seq<char>>::empty());
        assert(r@.untracked =~= Seq::<Seq<char>>::empty());
        r
    }
}

impl GitSnapshot {
    /// Lines the panel renders for this snapshot: the branch row plus one row
    /// per changed file, or the error on its own.
    pub fn line_count(&self) -> (n: usize)
        requires
            self.error.is_none() ==> 1 + self.staged.len() + self.unstaged.len()
                + self.untracked.len() <= usize::MAX,
        ensures
            n == (if self.error.is_some() {
                1
            } else {
                1 + self.staged.len() + self.unstaged.len() + self.untracked.len()
            }),
    {
        if self.error.is_some() {
            return 1;
        }
        1 + self.staged.len() + self.unstaged.len() + self.untracked.len()
    }
}

// ───────────────────────────── the header ─────────────────────────────

pub open spec fn header_prefix() -> Seq<char> {
    seq!['#', '#', ' ']
}

/// Position of the first `...`.
pub open spec fn find_dots(s: Seq<char>) -> Option<nat>
    decreases s.len(),
{
    if s.len() < 3 {
        None
    } else if s[0] == '.' && s[1] == '.' && s[2] == '.' {
        Some(0)
    } else {
        match find_dots(s.drop_first()) {
            Some(i) => Some(i + 1),
            None => None,
        }
    }
}

/// `s` without its trailing `c`s.
pub open spec fn trim_end_char(s: Seq<char>, c: char) -> Seq<char>
    decreases s.len(),
{
    if s.len() > 0 && s.last() == c {
        trim_end_char(s.drop_last(), c)
    } else {
        s
    }
}

/// Where the ahead/behind fields split: at `,` and at whitespace.
pub open spec fn is_field_sep(c: char) -> bool {
    c == ',' || is_ws(c)
}

pub open spec fn find_field_sep(s: Seq<char>) -> Option<nat>
    decreases s.len(),
{
    if s.len() == 0 {
        None
    } else if is_field_sep(s[0]) {
        Some(0)
    } else {
        match find_field_sep(s.drop_first()) {
            Some(i) => Some(i + 1),
            None => None,
        }
    }
}

proof fn lemma_find_field_sep(s: Seq<char>, k: int)
    requires
        0 <= k <= s.len(),
        forall|m: int| 0 <= m < k ==> !is_field_sep(#[trigger] s[m]),
        k == s.len() || is_field_sep(s[k]),
    ensures
        find_field_sep(s) == (if k == s.len() {
            None::<nat>
        } else {
            Some(k as nat)
        }),
    decreases k,
{
    if k > 0 {
        assert forall|m: int| 0 <= m < k - 1 implies !is_field_sep(#[trigger] s.drop_first()[m]) by {
            assert(s.drop_first()[m] == s[m + 1]);
        }
        lemma_find_field_sep(s.drop_first(), k - 1);
    }
}

/// A field separator found lies inside the text.
pub proof fn lemma_find_field_sep_bound(s: Seq<char>)
    ensures
        find_field_sep(s) matches Some(i) ==> i < s.len(),
    decreases s.len(),
{
    if s.len() > 0 && !is_field_sep(s[0]) {
        lemma_find_field_sep_bound(s.drop_first());
    }
}

/// The pieces of `s` between separators, empty ones included
/// (`str::split` on `,` and whitespace).
pub open spec fn fields(s: Seq<char>) -> Seq<Seq<char>>
    decreases s.len(),
{
    match find_field_sep(s) {
        None => seq![s],
        Some(i) => {
            proof {
                lemma_find_field_sep_bound(s);
            }
            seq![s.take(i as int)] + fields(s.skip(i as int + 1))
        },
    }
}

/// The number after the first `label` that is followed by a number; a
/// `label` followed by anything else spends that token too.
pub open spec fn field_count_spec(tokens: Seq<Seq<char>>, label: Seq<char>) -> u32
    decreases tokens.len(),
{
    if tokens.len() == 0 {
        0
    } else if tokens[0] == label {
        if tokens.len() < 2 {
            0
        } else {
            match parse_u32_spec(tokens[1]) {
                Some(n) => n,
                None => field_count_spec(tokens.skip(2), label),
            }
        }
    } else {
        field_count_spec(tokens.drop_first(), label)
    }
}

/// The branch name of a header: before any `...`, its first word.
pub open spec fn header_branch(header: Seq<char>) -> Seq<char> {
    let head = match find_dots(header) {
        Some(i) => header.take(i as int),
        None => header,
    };
    let ws = words(head, false);
    if ws.len() > 0 {
        ws[0]
    } else {
        seq![]
    }
}

/// A `## branch...upstream [ahead 2, behind 1]` header read into the summary.
pub open spec fn header_step(st: GitSummary, header: Seq<char>) -> GitSummary {
    let name = header_branch(header);
    let branch = if name.len() > 0 {
        name
    } else {
        st.branch
    };
    match find_char(header, '[') {
        None => GitSummary { branch, ..st },
        Some(b) => {
            let inside = trim_end_char(header.skip(b as int + 1), ']');
            GitSummary {
                branch,
                ahead: field_count_spec(fields(inside), "ahead"@),
                behind: field_count_spec(fields(inside), "behind"@),
                ..st
            }
        },
    }
}

// ───────────────────────────── status rows ─────────────────────────────

/// The status codes of a row are its first two bytes. A code point below
/// 0x800 that is not ASCII takes exactly two bytes: these are they, read as
/// characters the way a byte is.
pub open spec fn lead_byte(c: char) -> char {
    (0xC0 + (c as u32) / 64) as char
}

pub open spec fn trail_byte(c: char) -> char {
    (0x80 + (c as u32) % 64) as char
}

pub open spec fn is_ascii_char(c: char) -> bool {
    (c as u32) < 0x80
}

/// Whether a row can be cut after its first two bytes: each row that is not
/// a header and holds three bytes or more is cut there, which only works on
/// a character boundary.
pub open spec fn row_cuts(line: Seq<char>) -> bool {
    ||| line.len() >= 3 && line.take(3) == header_prefix()
    ||| line.len() == 0
    ||| is_ascii_char(line[0]) && (line.len() < 2 || is_ascii_char(line[1]))
    ||| !is_ascii_char(line[0]) && (line[0] as u32) < 0x800
}

/// Whether every row of a listing can be cut where it is read.
pub open spec fn porcelain_cuts(text: Seq<char>) -> bool {
    forall|i: int| 0 <= i < lines(text).len() ==> row_cuts(#[trigger] lines(text)[i])
}

/// The two status codes of a row of three bytes or more, and where its path
/// starts; `None` for a shorter row.
pub open spec fn status_codes(line: Seq<char>) -> Option<(char, char, int)> {
    if line.len() == 0 {
        None
    } else if is_ascii_char(line[0]) {
        if line.len() < 3 {
            None
        } else {
            Some((line[0], line[1], 2))
        }
    } else if line.len() < 2 {
        None
    } else {
        Some((lead_byte(line[0]), trail_byte(line[0]), 1))
    }
}

/// `row` kept at the end of `rows` while they are fewer than [`LIST_CAP`].
pub open spec fn push_capped_spec(rows: Seq<Seq<char>>, row: Seq<char>) -> Seq<Seq<char>> {
    if rows.len() < LIST_CAP {
        rows.push(row)
    } else {
        rows
    }
}

/// One row of the listing read into the summary.
pub open spec fn row_step(st: GitSummary, line: Seq<char>) -> GitSummary {
    if line.len() >= 3 && line.take(3) == header_prefix() {
        header_step(st, line.skip(3))
    } else {
        match status_codes(line) {
            None => st,
            Some((index, worktree, start)) => {
                let path = trim(line.skip(start));
                if path.len() == 0 {
                    st
                } else if index == '?' && worktree == '?' {
                    GitSummary {
                        untracked: push_capped_spec(st.untracked, seq!['?', ' '] + path),
                        ..st
                    }
                } else {
                    let staged = if index != ' ' && index != '?' {
                        push_capped_spec(st.staged, seq![index, '\t'] + path)
                    } else {
                        st.staged
                    };
                    let unstaged = if worktree != ' ' && worktree != '?' {
                        push_capped_spec(st.unstaged, seq![worktree, '\t'] + path)
                    } else {
                        st.unstaged
                    };
                    GitSummary { staged, unstaged, ..st }
                }
            },
        }
    }
}

/// The rows of a listing read in order.
pub open spec fn porcelain_fold(ls: Seq<Seq<char>>) -> GitSummary
    decreases ls.len(),
{
    if ls.len() == 0 {
        empty_summary()
    } else {
        row_step(porcelain_fold(ls.drop_last()), ls.last())
    }
}

/// What [`parse_porcelain`] answers: the rows read in order, and `-` for a
/// branch no header named.
pub open spec fn porcelain_spec(text: Seq<char>) -> GitSummary {
    let st = porcelain_fold(lines(text));
    if st.branch.len() == 0 {
        GitSummary { branch: seq!['-'], ..st }
    } else {
        st
    }
}

/// `earlier` begins `later`.
pub open spec fn begins(earlier: Seq<Seq<char>>, later: Seq<Seq<char>>) -> bool {
    earlier.len() <= later.len() && later.subrange(0, earlier.len() as int) == earlier
}

/// Reading more rows never takes an entry back: each list after the first
/// `n` rows begins the same list after all of them.
proof fn lemma_lists_grow(ls: Seq<Seq<char>>, n: int)
    requires
        0 <= n <= ls.len(),
    ensures
        begins(porcelain_fold(ls.take(n)).staged, porcelain_fold(ls).staged),
        begins(porcelain_fold(ls.take(n)).unstaged, porcelain_fold(ls).unstaged),
        begins(porcelain_fold(ls.take(n)).untracked, porcelain_fold(ls).untracked),
    decreases ls.len(),
{
    let now = porcelain_fold(ls);
    if n == ls.len() {
        assert(ls.take(n) =~= ls);
        assert(now.staged.subrange(0, now.staged.len() as int) =~= now.staged);
        assert(now.unstaged.subrange(0, now.unstaged.len() as int) =~= now.unstaged);
        assert(now.untracked.subrange(0, now.untracked.len() as int) =~= now.untracked);
    } else {
        lemma_lists_grow(ls.drop_last(), n);
        assert(ls.drop_last().take(n) =~= ls.take(n));
        let was = porcelain_fold(ls.drop_last());
        let first = porcelain_fold(ls.take(n));
        assert(now.staged.subrange(0, was.staged.len() as int) =~= was.staged);
        assert(now.staged.subrange(0, first.staged.len() as int) =~= was.staged.subrange(0, first.staged.len() as int));
        assert(now.unstaged.subrange(0, was.unstaged.len() as int) =~= was.unstaged);
        assert(now.unstaged.subrange(0, first.unstaged.len() as int) =~= was.unstaged.subrange(
            0,
            first.unstaged.len() as int,
        ));
        assert(now.untracked.subrange(0, was.untracked.len() as int) =~= was.untracked);
        assert(now.untracked.subrange(0, first.untracked.len() as int) =~= was.untracked.subrange(
            0,
            first.untracked.len() as int,
        ));
    }
}

/// A status row `XY path` whose index code `X` is a change (neither a space
/// nor `?`: added, modified, deleted, renamed or any other letter) lists
/// `X<tab>path` among the staged files, in its place after the staged rows
/// read before it, while fewer than [`LIST_CAP`] were.
pub proof fn lemma_index_changes_are_staged(text: Seq<char>, i: int, x: char, y: char, rest: Seq<char>)
    requires
        0 <= i < lines(text).len(),
        lines(text)[i] == seq![x, y] + rest,
        is_ascii_char(x),
        x != ' ',
        x != '?',
        x != '#',
        rest.len() > 0,
        trim(rest).len() > 0,
        porcelain_fold(lines(text).take(i)).staged.len() < LIST_CAP,
    ensures
        porcelain_fold(lines(text).take(i + 1)).staged == porcelain_fold(lines(text).take(i)).staged.push(
            seq![x, '\t'] + trim(rest),
        ),
        porcelain_spec(text).staged.contains(seq![x, '\t'] + trim(rest)),
{
    let ls = lines(text);
    let line = ls[i];
    assert(ls.take(i + 1).drop_last() =~= ls.take(i));
    assert(ls.take(i + 1).last() == line);
    assert(line[0] == x);
    assert(line[1] == y);
    assert(line.skip(2) =~= rest);
    assert(line.take(3)[0] == x);
    let before = porcelain_fold(ls.take(i)).staged;
    lemma_lists_grow(ls, i + 1);
    let all = porcelain_fold(ls).staged;
    assert(all[before.len() as int] == all.subrange(0, before.len() + 1int)[before.len() as int]);
    assert(porcelain_spec(text).staged == all);
}

/// A status row `XY path` whose work-tree code `Y` is a change (neither a
/// space nor `?`) lists `Y<tab>path` among the unstaged files, in its place
/// after the unstaged rows read before it, while fewer than [`LIST_CAP`]
/// were.
pub proof fn lemma_worktree_changes_are_unstaged(text: Seq<char>, i: int, x: char, y: char, rest: Seq<char>)
    requires
        0 <= i < lines(text).len(),
        lines(text)[i] == seq![x, y] + rest,
        is_ascii_char(x),
        x != '#',
        y != ' ',
        y != '?',
        rest.len() > 0,
        trim(rest).len() > 0,
        porcelain_fold(lines(text).take(i)).unstaged.len() < LIST_CAP,
    ensures
        porcelain_fold(lines(text).take(i + 1)).unstaged == porcelain_fold(lines(text).take(i)).unstaged.push(
            seq![y, '\t'] + trim(rest),
        ),
        porcelain_spec(text).unstaged.contains(seq![y, '\t'] + trim(rest)),
{
    let ls = lines(text);
    let line = ls[i];
    assert(ls.take(i + 1).drop_last() =~= ls.take(i));
    assert(ls.take(i + 1).last() == line);
    assert(line[0] == x);
    assert(line[1] == y);
    assert(line.skip(2) =~= rest);
    assert(line.take(3)[0] == x);
    let before = porcelain_fold(ls.take(i)).unstaged;
    lemma_lists_grow(ls, i + 1);
    let all = porcelain_fold(ls).unstaged;
    assert(all[before.len() as int] == all.subrange(0, before.len() + 1int)[before.len() as int]);
    assert(porcelain_spec(text).unstaged == all);
}

/// A `?? path` row lists `? path` among the untracked files, and nothing
/// among the staged or unstaged ones, while fewer than [`LIST_CAP`]
/// untracked rows were read before it.
pub proof fn lemma_untracked_rows(text: Seq<char>, i: int, rest: Seq<char>)
    requires
        0 <= i < lines(text).len(),
        lines(text)[i] == seq!['?', '?'] + rest,
        rest.len() > 0,
        trim(rest).len() > 0,
        porcelain_fold(lines(text).take(i)).untracked.len() < LIST_CAP,
    ensures
        porcelain_fold(lines(text).take(i + 1)).untracked == porcelain_fold(lines(text).take(i)).untracked.push(
            seq!['?', ' '] + trim(rest),
        ),
        porcelain_fold(lines(text).take(i + 1)).staged == porcelain_fold(lines(text).take(i)).staged,
        porcelain_fold(lines(text).take(i + 1)).unstaged == porcelain_fold(lines(text).take(i)).unstaged,
        porcelain_spec(text).untracked.contains(seq!['?', ' '] + trim(rest)),
{
    let ls = lines(text);
    let line = ls[i];
    assert(ls.take(i + 1).drop_last() =~= ls.take(i));
    assert(ls.take(i + 1).last() == line);
    assert(line[0] == '?');
    assert(line[1] == '?');
    assert(line.skip(2) =~= rest);
    assert(line.take(3)[0] == '?');
    let before = porcelain_fold(ls.take(i)).untracked;
    lemma_lists_grow(ls, i + 1);
    let all = porcelain_fold(ls).untracked;
    assert(all[before.len() as int] == all.subrange(0, before.len() + 1int)[before.len() as int]);
    assert(porcelain_spec(text).untracked == all);
}

// ───────────────────────────── reading the header ─────────────────────────────

pub open spec fn dots_at(s: Seq<char>, m: int) -> bool {
    s[m] == '.' && s[m + 1] == '.' && s[m + 2] == '.'
}

proof fn lemma_find_dots(s: Seq<char>, k: int)
    requires
        0 <= k,
        forall|m: int| 0 <= m < k && m + 3 <= s.len() ==> !#[trigger] dots_at(s, m),
        (k + 3 <= s.len() && dots_at(s, k)) || k + 3 > s.len(),
    ensures
        find_dots(s) == (if k + 3 <= s.len() {
            Some(k as nat)
        } else {
            None::<nat>
        }),
    decreases s.len(),
{
    if s.len() >= 3 && !dots_at(s, 0) {
        let t = s.drop_first();
        assert forall|m: int| 0 <= m < k - 1 && m + 3 <= t.len() implies !#[trigger] dots_at(t, m) by {
            assert(dots_at(t, m) == dots_at(s, m + 1));
        }
        if k + 3 <= s.len() {
            assert(dots_at(t, k - 1) == dots_at(s, k));
        }
        if k == 0 {
            assert(k + 3 > s.len());
        }
        lemma_find_dots(t, k - 1);
    } else if s.len() >= 3 {
        assert(k == 0 || !(0 < k)) by {
            if k > 0 {
                assert(!dots_at(s, 0));
            }
        }
    }
}

/// Where the first `...` of `v[from..to]` starts, or `to`.
fn find_dots_in(v: &Vec<char>, from: usize, to: usize) -> (k: usize)
    requires
        from <= to <= v.len(),
    ensures
        from <= k <= to,
        find_dots(v@.subrange(from as int, to as int)) == (if k < to {
            Some((k - from) as nat)
        } else {
            None::<nat>
        }),
{
    let ghost s = v@.subrange(from as int, to as int);
    let mut k = from;
    while to - k >= 3
        invariant
            from <= k <= to <= v.len(),
            s == v@.subrange(from as int, to as int),
            forall|m: int| 0 <= m < k - from && m + 3 <= s.len() ==> !#[trigger] dots_at(s, m),
        decreases to - k,
    {
        assert(dots_at(s, k - from) == (v@[k as int] == '.' && v@[k + 1] == '.' && v@[k + 2]
            == '.'));
        if v[k] == '.' && v[k + 1] == '.' && v[k + 2] == '.' {
            proof {
                lemma_find_dots(s, k - from);
            }
            return k;
        }
        k = k + 1;
    }
    proof {
        lemma_find_dots(s, k - from);
    }
    to
}

proof fn lemma_trim_end_char_run(s: Seq<char>, c: char, j: int, k: int)
    requires
        0 <= j <= k <= s.len(),
        forall|m: int| j <= m < k ==> #[trigger] s[m] == c,
        j == 0 || s[j - 1] != c,
    ensures
        trim_end_char(s.take(k), c) == s.take(j),
    decreases k - j,
{
    if j < k {
        assert(s.take(k).drop_last() =~= s.take(k - 1));
        lemma_trim_end_char_run(s, c, j, k - 1);
    }
}

/// The pieces of `v[from..to]` between separators, as ranges of `v`.
fn field_ranges(v: &Vec<char>, from: usize, to: usize) -> (r: Vec<crate::text::Range>)
    requires
        from <= to <= v.len(),
    ensures
        crate::text::ranges_valid(v@, r@),
        crate::text::ranges_text(v@, r@) == fields(v@.subrange(from as int, to as int)),
{
    let mut r: Vec<crate::text::Range> = Vec::new();
    let mut start = from;
    let mut k = from;
    while k < to
        invariant
            from <= start <= k <= to <= v.len(),
            forall|m: int| start <= m < k ==> !is_field_sep(#[trigger] v@[m]),
            crate::text::ranges_valid(v@, r@),
            crate::text::ranges_text(v@, r@) + fields(v@.subrange(start as int, to as int))
                == fields(v@.subrange(from as int, to as int)),
        decreases to - k,
    {
        let c = v[k];
        if c == ',' || crate::text::char_is_whitespace(c) {
            proof {
                let t = v@.subrange(start as int, to as int);
                assert forall|m: int| 0 <= m < k - start implies !is_field_sep(#[trigger] t[m]) by {
                    assert(t[m] == v@[start + m]);
                }
                assert(t[k - start] == c);
                lemma_find_field_sep(t, k - start);
                assert(t.take(k - start) =~= v@.subrange(start as int, k as int));
                assert(t.skip(k - start + 1) =~= v@.subrange(k + 1, to as int));
            }
            let ghost old_r = r@;
            r.push(crate::text::Range { start, end: k });
            assert(crate::text::ranges_text(v@, r@) =~= crate::text::ranges_text(v@, old_r)
                + seq![v@.subrange(start as int, k as int)]);
            assert forall|m: int| 0 <= m < r@.len() implies #[trigger] r@[m].start <= r@[m].end
                && r@[m].end <= v@.len() by {
                if m < old_r.len() {
                    assert(r@[m] == old_r[m]);
                }
            }
            start = k + 1;
        }
        k = k + 1;
    }
    proof {
        let t = v@.subrange(start as int, to as int);
        assert forall|m: int| 0 <= m < t.len() implies !is_field_sep(#[trigger] t[m]) by {
            assert(t[m] == v@[start + m]);
        }
        lemma_find_field_sep(t, t.len() as int);
    }
    let ghost old_r = r@;
    r.push(crate::text::Range { start, end: to });
    assert(crate::text::ranges_text(v@, r@) =~= crate::text::ranges_text(v@, old_r) + seq![
        v@.subrange(start as int, to as int),
    ]);
    assert forall|m: int| 0 <= m < r@.len() implies #[trigger] r@[m].start <= r@[m].end
        && r@[m].end <= v@.len() by {
        if m < old_r.len() {
            assert(r@[m] == old_r[m]);
        }
    }
    r
}

/// The number after `label` among the pieces `ranges` of `v`.
fn field_count(v: &Vec<char>, ranges: &Vec<crate::text::Range>, label: &str) -> (n: u32)
    requires
        crate::text::ranges_valid(v@, ranges@),
    ensures
        n == field_count_spec(crate::text::ranges_text(v@, ranges@), label@),
{
    let ghost tokens = crate::text::ranges_text(v@, ranges@);
    let mut i: usize = 0;
    assert(tokens.skip(0) =~= tokens);
    while i < ranges.len()
        invariant
            i <= ranges.len(),
            tokens == crate::text::ranges_text(v@, ranges@),
            crate::text::ranges_valid(v@, ranges@),
            field_count_spec(tokens, label@) == field_count_spec(tokens.skip(i as int), label@),
        decreases ranges.len() - i,
    {
        let t = &ranges[i];
        assert(tokens.skip(i as int)[0] == v@.subrange(t.start as int, t.end as int));
        if range_eq(v, t.start, t.end, label) {
            if i + 1 >= ranges.len() {
                return 0;
            }
            let u = &ranges[i + 1];
            assert(tokens.skip(i as int)[1] == v@.subrange(u.start as int, u.end as int));
            match parse_u32_in(v, u.start, u.end) {
                Some(n) => return n,
                None => {
                    assert(tokens.skip(i as int).skip(2) =~= tokens.skip(i + 2));
                    i = i + 2;
                },
            }
        } else {
            assert(tokens.skip(i as int).drop_first() =~= tokens.skip(i + 1));
            i = i + 1;
        }
    }
    assert(tokens.skip(i as int) =~= Seq::<Seq<char>>::empty());
    0
}

/// Read the header `v[from..to]` (what follows `## `) into `snap`.
fn apply_header(snap: &mut GitSnapshot, v: &Vec<char>, from: usize, to: usize)
    requires
        from <= to <= v.len(),
    ensures
        final(snap)@ == header_step(old(snap)@, v@.subrange(from as int, to as int)),
{
    let ghost header = v@.subrange(from as int, to as int);
    let he = find_dots_in(v, from, to);
    assert(header.take(he - from) =~= v@.subrange(from as int, he as int));
    assert(he == to ==> header =~= v@.subrange(from as int, he as int));
    let w = sub_vec(v, from, he);
    let spans = word_spans(&w, false);
    if spans.len() > 0 {
        snap.branch = string_of_range(&w, spans[0].start, spans[0].end);
    }
    let b = before_first_in(v, from, to, '[');
    proof {
        assert forall|m: int| 0 <= m < b - from implies #[trigger] header[m] != '[' by {
            assert(header[m] == v@[from + m]);
        }
        assert(header.skip(0) =~= header);
        if b < to {
            assert(header[b - from] == '[');
            crate::text::lemma_find_char_at(header, '[', 0, b - from);
        } else {
            crate::text::lemma_find_char_none(header, '[', 0);
        }
    }
    if b < to {
        let mut e = to;
        while e > b + 1 && v[e - 1] == ']'
            invariant
                b + 1 <= e <= to <= v.len(),
                forall|m: int| e <= m < to ==> #[trigger] v@[m] == ']',
            decreases e,
        {
            e = e - 1;
        }
        proof {
            let t = v@.subrange(b + 1, to as int);
            assert forall|m: int| e - b - 1 <= m < t.len() implies #[trigger] t[m] == ']' by {
                assert(t[m] == v@[b + 1 + m]);
            }
            if e > b + 1 {
                assert(t[e - b - 2] == v@[e - 1]);
            }
            lemma_trim_end_char_run(t, ']', e - b - 1, t.len() as int);
            assert(t.take(t.len() as int) =~= t);
            assert(t.take(e - b - 1) =~= v@.subrange(b + 1, e as int));
            assert(header.skip(b - from + 1) =~= t);
        }
        let pieces = field_ranges(v, b + 1, e);
        snap.ahead = field_count(v, &pieces, "ahead");
        snap.behind = field_count(v, &pieces, "behind");
    }
}

// ───────────────────────────── reading the rows ─────────────────────────────

/// The character a byte reads as.
fn byte_char(b: u32) -> (c: char)
    requires
        b < 256,
    ensures
        c == b as char,
{
    (b as u8) as char
}

/// `a`, `b` and then `v[from..to]`, as a `String`.
fn row_text(a: char, b: char, v: &Vec<char>, from: usize, to: usize) -> (s: String)
    requires
        from <= to <= v.len(),
    ensures
        s@ == seq![a, b] + v@.subrange(from as int, to as int),
{
    let mut out: Vec<char> = Vec::new();
    out.push(a);
    out.push(b);
    extend_range(&mut out, v, from, to);
    assert(out@ =~= seq![a, b] + v@.subrange(from as int, to as int));
    string_of(&out)
}

/// Keep `row` while fewer than [`LIST_CAP`] rows are kept.
fn push_capped(rows: &mut Vec<String>, row: String)
    ensures
        string_views(final(rows)@) == push_capped_spec(string_views(old(rows)@), row@),
{
    if rows.len() < LIST_CAP {
        let ghost before = rows@;
        rows.push(row);
        assert(string_views(rows@) =~= string_views(before).push(row@));
    }
}

/// Read the row `v[from..to]` into `snap`.
fn apply_row(snap: &mut GitSnapshot, v: &Vec<char>, from: usize, to: usize)
    requires
        from <= to <= v.len(),
        row_cuts(v@.subrange(from as int, to as int)),
    ensures
        final(snap)@ == row_step(old(snap)@, v@.subrange(from as int, to as int)),
{
    let ghost line = v@.subrange(from as int, to as int);
    if to - from >= 3 && v[from] == '#' && v[from + 1] == '#' && v[from + 2] == ' ' {
        assert(line.take(3) =~= header_prefix());
        assert(line.skip(3) =~= v@.subrange(from + 3, to as int));
        apply_header(snap, v, from + 3, to);
        return;
    }
    assert(line.len() >= 3 ==> line.take(3)[0] == v@[from as int] && line.take(3)[1] == v@[from
        + 1] && line.take(3)[2] == v@[from + 2]);
    if from == to {
        return;
    }
    let c0 = v[from];
    let code = c0 as u32;
    let (index, worktree, start) = if code < 0x80 {
        if to - from < 3 {
            return;
        }
        (c0, v[from + 1], from + 2)
    } else {
        if to - from < 2 {
            return;
        }
        (byte_char(0xC0 + code / 64), byte_char(0x80 + code % 64), from + 1)
    };
    assert(line.skip(start - from) =~= v@.subrange(start as int, to as int));
    let (ps, pe) = trim_range(v, start, to);
    if ps == pe {
        return;
    }
    if index == '?' && worktree == '?' {
        push_capped(&mut snap.untracked, row_text('?', ' ', v, ps, pe));
        return;
    }
    if index != ' ' && index != '?' {
        push_capped(&mut snap.staged, row_text(index, '\t', v, ps, pe));
    }
    if worktree != ' ' && worktree != '?' {
        push_capped(&mut snap.unstaged, row_text(worktree, '\t', v, ps, pe));
    }
}

/// Reads porcelain v1 with `-b`: a `## branch...upstream [ahead n, behind m]`
/// header, then `XY path` rows. Each section keeps its first [`LIST_CAP`]
/// rows; a listing no header names a branch in shows `-`.
pub fn parse_porcelain(text: &str) -> (snapshot: GitSnapshot)
    requires
        porcelain_cuts(text@),
    ensures
        snapshot@ == porcelain_spec(text@),
{
    let v = chars_of(text);
    let ranges = crate::text::line_ranges(&v);
    let ghost ls = crate::text::ranges_text(v@, ranges@);
    let mut snapshot = GitSnapshot::default();
    let mut i: usize = 0;
    assert(ls.take(0) =~= Seq::<Seq<char>>::empty());
    while i < ranges.len()
        invariant
            i <= ranges.len(),
            v@ == text@,
            ls == crate::text::ranges_text(v@, ranges@),
            ls == lines(v@),
            crate::text::ranges_valid(v@, ranges@),
            porcelain_cuts(text@),
            snapshot@ == porcelain_fold(ls.take(i as int)),
        decreases ranges.len() - i,
    {
        let start = ranges[i].start;
        let end = ranges[i].end;
        assert(ls.take(i + 1).drop_last() =~= ls.take(i as int));
        assert(ls.take(i + 1).last() == v@.subrange(start as int, end as int));
        assert(row_cuts(ls[i as int]));
        apply_row(&mut snapshot, &v, start, end);
        i = i + 1;
    }
    assert(ls.take(ranges.len() as int) =~= ls);
    if snapshot.branch.unicode_len() == 0 {
        let mut b = String::new();
        crate::text::push_char(&mut b, '-');
        snapshot.branch = b;
        assert(b@ =~= seq!['-']);
    }
    snapshot
}

/// A snapshot that holds only an error.
pub open spec fn error_summary(message: Seq<char>) -> GitSummary {
    GitSummary { error: Some(message), ..empty_summary() }
}

/// What a snapshot of a path is, from what finding the repository and running
/// `git status` gave: outside a repository, or when git failed, the snapshot
/// holds only the error.
pub fn snapshot_from(in_repo: bool, status: Option<&str>) -> (snapshot: GitSnapshot)
    requires
        in_repo && status.is_some() ==> porcelain_cuts(status.unwrap()@),
    ensures
        !in_repo ==> snapshot@ == error_summary("not a git repo"@),
        in_repo && status.is_none() ==> snapshot@ == error_summary("git status failed"@),
        in_repo && status.is_some() ==> snapshot@ == porcelain_spec(status.unwrap()@),
{
    if !in_repo {
        let mut s = GitSnapshot::default();
        s.error = Some("not a git repo".to_owned());
        return s;
    }
    match status {
        Some(text) => parse_porcelain(text),
        None => {
            let mut s = GitSnapshot::default();
            s.error = Some("git status failed".to_owned());
            s
        },
    }
}

/// Whether every row of a listing can be cut where [`parse_porcelain`]
/// reads it: what a caller checks before handing git's output over.
pub fn porcelain_cuts_exec(text: &str) -> (b: bool)
    ensures
        b == porcelain_cuts(text@),
{
    let v = chars_of(text);
    let ranges = crate::text::line_ranges(&v);
    let ghost ls = crate::text::ranges_text(v@, ranges@);
    let mut i: usize = 0;
    while i < ranges.len()
        invariant
            i <= ranges@.len(),
            ls == crate::text::ranges_text(v@, ranges@),
            ls == lines(text@),
            crate::text::ranges_valid(v@, ranges@),
            forall|k: int| 0 <= k < i ==> row_cuts(#[trigger] ls[k]),
        decreases ranges@.len() - i,
    {
        let (a, e) = (ranges[i].start, ranges[i].end);
        assert(a <= e && e <= v@.len());
        let ghost line = v@.subrange(a as int, e as int);
        assert(ls[i as int] == line);
        let n = e - a;
        let ok = if n >= 3 && crate::text::range_eq(&v, a, a + 3, "## ") {
            true
        } else if n == 0 {
            true
        } else {
            let c0 = v[a] as u32;
            if c0 < 0x80 {
                n < 2 || (v[a + 1] as u32) < 0x80
            } else {
                c0 < 0x800
            }
        };
        proof {
            reveal_strlit("## ");
            if n >= 3 {
                assert(line.take(3) =~= v@.subrange(a as int, a + 3));
            }
            if n >= 1 {
                assert(line[0] == v@[a as int]);
            }
            if n >= 2 {
                assert(line[1] == v@[a + 1]);
            }
        }
        if !ok {
            assert(!row_cuts(ls[i as int]));
            return false;
        }
        i = i + 1;
    }
    true
}

// ───────────────────────────── laws ─────────────────────────────

proof fn lemma_fold_within_cap(ls: Seq<Seq<char>>)
    ensures
        porcelain_fold(ls).staged.len() <= LIST_CAP,
        porcelain_fold(ls).unstaged.len() <= LIST_CAP,
        porcelain_fold(ls).untracked.len() <= LIST_CAP,
        porcelain_fold(ls).error.is_none(),
    decreases ls.len(),
{
    if ls.len() > 0 {
        lemma_fold_within_cap(ls.drop_last());
    }
}

/// Whatever the listing, each section of the panel holds at most
/// [`LIST_CAP`] rows, a branch is always named, and reading a listing is
/// never an error.
pub proof fn lemma_porcelain_stays_within_the_panel(text: Seq<char>)
    ensures
        porcelain_spec(text).staged.len() <= LIST_CAP,
        porcelain_spec(text).unstaged.len() <= LIST_CAP,
        porcelain_spec(text).untracked.len() <= LIST_CAP,
        porcelain_spec(text).branch.len() > 0,
        porcelain_spec(text).error.is_none(),
{
    lemma_fold_within_cap(lines(text));
}

} // verus!
