//! What the sidebar draws, as plain data: the filter bar, the job list and
//! the bottom panel, line by line. Whoever owns the terminal turns these into
//! styled text; every decision of what a line says is made here.
use vstd::prelude::*;

use crate::colors::{class_color, filter_color, FILTER_INACTIVE};
use crate::columns::{
    activity_spec, activity_text, age_label, age_label_spec, cell_spec, cell_text, pad_columns,
    padded_rows, row_views, str_width, truncate, truncate_spec, GAP,
};
use crate::filter::{count_shown, filter_at, StatusFilter};
use crate::frame::JobView;
use crate::git::{GitSnapshot, LIST_CAP};
use crate::icons::{filter_glyph, filter_icon, status_glyph, status_icon};
use crate::state::{AppState, MachineSection};
use crate::status::{class_of, StatusClass};
use crate::text::{chars_of, decimal, lines, string_of};
use crate::tmux::TmuxRunner;

verus! {

/// Columns the age takes, right-aligned.
pub const AGE_COL: usize = 4;

/// One job row of the list.
pub struct JobRow {
    pub icon: &'static str,
    pub class: StatusClass,
    pub selected: bool,
    /// The padded name, followed by the gap before the activity.
    pub name: String,
    pub activity: String,
    /// A space, then the age right-aligned to [`AGE_COL`] columns.
    pub age: String,
}

/// One line of the job list.
pub enum ListLine {
    /// Nothing to list.
    Placeholder(&'static str),
    /// A machine section's title.
    Header(String),
    Row(JobRow),
}

/// A line of the job list, as values.
pub enum LineSpec {
    Placeholder(Seq<char>),
    Header(Seq<char>),
    Row {
        icon: Seq<char>,
        class: StatusClass,
        selected: bool,
        name: Seq<char>,
        activity: Seq<char>,
        age: Seq<char>,
    },
}

pub open spec fn line_view(l: ListLine) -> LineSpec {
    match l {
        ListLine::Placeholder(t) => LineSpec::Placeholder(t@),
        ListLine::Header(t) => LineSpec::Header(t@),
        ListLine::Row(r) => LineSpec::Row {
            icon: r.icon@,
            class: r.class,
            selected: r.selected,
            name: r.name@,
            activity: r.activity@,
            age: r.age@,
        },
    }
}

/// `n` spaces.
pub open spec fn spaces(n: nat) -> Seq<char> {
    Seq::new(n, |i: int| ' ')
}

/// A space, then `age` right-aligned to [`AGE_COL`] characters.
pub open spec fn age_column(age: Seq<char>) -> Seq<char> {
    seq![' '] + spaces(if age.len() < 4 { (4 - age.len()) as nat } else { 0 }) + age
}

/// How wide a name or an activity may be in a list `width` columns wide:
/// half of what the icon, the gap and the age leave, and never under four.
pub open spec fn name_budget_spec(width: nat) -> nat {
    let rest: int = width - 10;
    let half: nat = if rest > 0 { (rest / 2) as nat } else { 0 };
    if half >= 4 { half } else { 4 }
}

/// The list's width: the area's, but never under eight columns.
pub open spec fn list_width(area: u16) -> nat {
    if area >= 8 { area as nat } else { 8 }
}

/// The two cells of each row of a section before padding: the name and the
/// activity, each cut to `budget` columns.
pub open spec fn row_cells(jobs: Seq<JobView>, rows: Seq<usize>, budget: nat) -> Seq<Seq<Seq<char>>> {
    Seq::new(
        rows.len(),
        |j: int|
            seq![
                truncate_spec(jobs[rows[j] as int].name@, budget),
                truncate_spec(cell_spec(activity_spec(jobs[rows[j] as int])), budget),
            ],
    )
}

/// The job row for `job`, given its padded cells.
pub open spec fn row_spec(now: int, job: JobView, cells: Seq<Seq<char>>, selected: bool) -> LineSpec {
    LineSpec::Row {
        icon: status_glyph(class_of(job))@,
        class: class_of(job),
        selected,
        name: cells[0] + GAP@,
        activity: cells[1],
        age: age_column(age_label_spec(now, job)),
    }
}

/// A section's lines: its title cut to the width, then one row per job, the
/// row at flat index `cursor` selected; `base` is the flat index of its
/// first row.
pub open spec fn section_lines(
    jobs: Seq<JobView>,
    sec: MachineSection,
    now: int,
    cursor: int,
    base: int,
    width: nat,
) -> Seq<LineSpec> {
    let padded = padded_rows(row_cells(jobs, sec.jobs@, name_budget_spec(width)), 2);
    seq![LineSpec::Header(truncate_spec(sec.title@, (width - 1) as nat))] + Seq::new(
        sec.jobs@.len(),
        |j: int| row_spec(now, jobs[sec.jobs@[j] as int], padded[j], base + j == cursor),
    )
}

/// Every section's lines, one section after the other.
pub open spec fn sections_lines(
    jobs: Seq<JobView>,
    secs: Seq<MachineSection>,
    now: int,
    cursor: int,
    width: nat,
) -> Seq<LineSpec>
    decreases secs.len(),
{
    if secs.len() == 0 {
        Seq::empty()
    } else {
        sections_lines(jobs, secs.drop_last(), now, cursor, width) + section_lines(
            jobs,
            secs.last(),
            now,
            cursor,
            crate::state::flatten(secs.drop_last()).len() as int,
            width,
        )
    }
}

/// The job list of a sidebar `area` columns wide: `offline` or `no jobs`
/// when nothing is listed, else each section's lines.
pub open spec fn job_list_spec(
    jobs: Seq<JobView>,
    secs: Seq<MachineSection>,
    offline: bool,
    now: int,
    cursor: int,
    area: u16,
) -> Seq<LineSpec> {
    if secs.len() == 0 {
        seq![LineSpec::Placeholder(if offline { "offline"@ } else { "no jobs"@ })]
    } else {
        sections_lines(jobs, secs, now, cursor, list_width(area))
    }
}

/// How many of `lines` are highlighted rows.
pub open spec fn highlighted(lines: Seq<LineSpec>) -> nat
    decreases lines.len(),
{
    if lines.len() == 0 {
        0
    } else {
        highlighted(lines.drop_last()) + lit(lines.last())
    }
}

/// 1 for a highlighted row, 0 for any other line.
pub open spec fn lit(line: LineSpec) -> nat {
    match line {
        LineSpec::Row { selected, .. } => if selected {
            1nat
        } else {
            0nat
        },
        _ => 0nat,
    }
}

proof fn lemma_highlighted_concat(a: Seq<LineSpec>, b: Seq<LineSpec>)
    ensures
        highlighted(a + b) == highlighted(a) + highlighted(b),
    decreases b.len(),
{
    if b.len() == 0 {
        assert(a + b =~= a);
    } else {
        lemma_highlighted_concat(a, b.drop_last());
        assert((a + b).drop_last() =~= a + b.drop_last());
    }
}

/// A section highlights its row at flat index `cursor`, if it has it.
proof fn lemma_section_highlight(
    jobs: Seq<JobView>,
    sec: MachineSection,
    now: int,
    cursor: int,
    base: int,
    width: nat,
    k: int,
)
    requires
        0 <= k <= sec.jobs@.len(),
    ensures
        highlighted(section_lines(jobs, sec, now, cursor, base, width).take(k + 1)) == if base <= cursor < base + k {
            1nat
        } else {
            0nat
        },
    decreases k,
{
    let l = section_lines(jobs, sec, now, cursor, base, width);
    let padded = padded_rows(row_cells(jobs, sec.jobs@, name_budget_spec(width)), 2);
    if k == 0 {
        assert(l.take(1).drop_last() =~= Seq::<LineSpec>::empty());
        assert(l.take(1).last() == l[0]);
        assert(l[0] is Header);
        assert(highlighted(l.take(1)) == highlighted(l.take(1).drop_last()) + lit(l[0]));
    } else {
        lemma_section_highlight(jobs, sec, now, cursor, base, width, k - 1);
        assert(l.take(k + 1).drop_last() =~= l.take(k));
        assert(l.take(k + 1).last() == l[k]);
        assert(l[k] == row_spec(now, jobs[sec.jobs@[k - 1] as int], padded[k - 1], base + (k - 1) == cursor));
        assert(lit(l[k]) == if base + (k - 1) == cursor {
            1nat
        } else {
            0nat
        });
        assert(highlighted(l.take(k + 1)) == highlighted(l.take(k)) + lit(l[k]));
    }
}

/// Each section's lines highlight the row at flat index `cursor` and no
/// other.
proof fn lemma_sections_highlight(jobs: Seq<JobView>, secs: Seq<MachineSection>, now: int, cursor: int, width: nat)
    ensures
        highlighted(sections_lines(jobs, secs, now, cursor, width)) == if 0 <= cursor < crate::state::flatten(
            secs,
        ).len() {
            1nat
        } else {
            0nat
        },
    decreases secs.len(),
{
    if secs.len() > 0 {
        let init = secs.drop_last();
        let base = crate::state::flatten(init).len() as int;
        let sec = secs.last();
        lemma_sections_highlight(jobs, init, now, cursor, width);
        let l = section_lines(jobs, sec, now, cursor, base, width);
        lemma_section_highlight(jobs, sec, now, cursor, base, width, sec.jobs@.len() as int);
        assert(l.take(sec.jobs@.len() as int + 1) =~= l);
        lemma_highlighted_concat(sections_lines(jobs, init, now, cursor, width), l);
    }
}

/// The list highlights exactly one row while the cursor stands on one, and
/// none otherwise: the row of the job under the cursor.
pub proof fn lemma_one_row_highlighted(
    jobs: Seq<JobView>,
    secs: Seq<MachineSection>,
    offline: bool,
    now: int,
    cursor: int,
    area: u16,
)
    ensures
        highlighted(job_list_spec(jobs, secs, offline, now, cursor, area)) == if 0 <= cursor
            < crate::state::flatten(secs).len() {
            1nat
        } else {
            0nat
        },
{
    if secs.len() == 0 {
        let l = job_list_spec(jobs, secs, offline, now, cursor, area);
        assert(l.drop_last() =~= Seq::<LineSpec>::empty());
        assert(l.last() is Placeholder);
        assert(highlighted(l) == highlighted(l.drop_last()) + lit(l.last()));
        assert(crate::state::flatten(secs).len() == 0);
    } else {
        lemma_sections_highlight(jobs, secs, now, cursor, list_width(area));
    }
}

/// How wide a name or an activity may be in a list `width` columns wide.
pub fn name_budget(width: usize) -> (n: usize)
    ensures
        n == name_budget_spec(width as nat),
{
    let gap = crate::columns::display_width(GAP);
    proof {
        reveal_strlit("  ");
        assert(crate::columns::printable_ascii(GAP@[0]));
        assert(crate::columns::printable_ascii(GAP@[1]));
    }
    let fixed: usize = 2 + 1 + gap + 1 + AGE_COL;
    let half = width.saturating_sub(fixed) / 2;
    if half >= 4 {
        half
    } else {
        4
    }
}

/// A space, then `age` right-aligned to [`AGE_COL`] characters.
fn age_cell(age: &str) -> (r: String)
    ensures
        r@ == age_column(age@),
{
    let v = chars_of(age);
    let mut out: Vec<char> = Vec::new();
    out.push(' ');
    let mut k: usize = v.len();
    while k < AGE_COL
        invariant
            v.len() <= k <= AGE_COL || k == v.len(),
            out@ == seq![' '] + spaces((k - v.len()) as nat),
        decreases AGE_COL - k,
    {
        out.push(' ');
        k = k + 1;
        assert(out@ =~= seq![' '] + spaces((k - v.len()) as nat));
    }
    let mut i: usize = 0;
    let ghost head = out@;
    while i < v.len()
        invariant
            i <= v.len(),
            out@ == head + v@.take(i as int),
        decreases v.len() - i,
    {
        out.push(v[i]);
        i = i + 1;
        assert(out@ =~= head + v@.take(i as int));
    }
    assert(v@.take(v.len() as int) =~= v@);
    assert(out@ =~= age_column(age@));
    string_of(&out)
}

/// The lines of one section.
fn push_section<R: TmuxRunner>(
    out: &mut Vec<ListLine>,
    state: &AppState<R>,
    sec: &MachineSection,
    base: usize,
    width: usize,
)
    requires
        forall|j: int| 0 <= j < sec.jobs@.len() ==> #[trigger] sec.jobs@[j] < state.jobs_view().len(),
        width >= 8,
        base + sec.jobs@.len() <= usize::MAX,
    ensures
        final(out)@.map_values(|l: ListLine| line_view(l)) == old(out)@.map_values(|l: ListLine| line_view(l))
            + section_lines(state.jobs_view(), *sec, state.instant() as int, state.cursor() as int, base as int, width as nat),
{
    let ghost start = old(out)@.map_values(|l: ListLine| line_view(l));
    let budget = name_budget(width);
    let first = ListLine::Header(truncate(sec.title.as_str(), width - 1));
    let ghost before = out@;
    out.push(first);
    assert(out@.map_values(|l: ListLine| line_view(l)) =~= before.map_values(|l: ListLine| line_view(l)).push(
        LineSpec::Header(truncate_spec(sec.title@, (width - 1) as nat)),
    ));
    let jobs = state.jobs();
    let mut rows: Vec<Vec<String>> = Vec::new();
    let mut j: usize = 0;
    while j < sec.jobs.len()
        invariant
            j <= sec.jobs@.len(),
            jobs@ == state.jobs_view(),
            forall|t: int| 0 <= t < sec.jobs@.len() ==> #[trigger] sec.jobs@[t] < jobs@.len(),
            rows@.len() == j,
            forall|t: int| 0 <= t < j ==> crate::columns::cell_views(#[trigger] rows@[t]@) == row_cells(jobs@, sec.jobs@, budget as nat)[t],
        decreases sec.jobs@.len() - j,
    {
        let job = &jobs[sec.jobs[j]];
        let mut row: Vec<String> = Vec::new();
        row.push(truncate(job.name.as_str(), budget));
        row.push(truncate(cell_text(activity_text(job)), budget));
        assert(crate::columns::cell_views(row@) =~= row_cells(jobs@, sec.jobs@, budget as nat)[j as int]);
        rows.push(row);
        j = j + 1;
    }
    assert(row_views(rows@) =~= row_cells(jobs@, sec.jobs@, budget as nat));
    let padded = pad_columns(rows.as_slice(), 2);
    let ghost cells = padded_rows(row_cells(jobs@, sec.jobs@, budget as nat), 2);
    let ghost rows_spec = Seq::new(
        sec.jobs@.len(),
        |t: int| row_spec(state.instant() as int, jobs@[sec.jobs@[t] as int], cells[t], base + t == state.cursor()),
    );
    let ghost header = LineSpec::Header(truncate_spec(sec.title@, (width - 1) as nat));
    assert(row_views(padded@).len() == padded@.len());
    assert(cells.len() == sec.jobs@.len());
    assert(out@.map_values(|l: ListLine| line_view(l)) =~= start + seq![header]);
    let mut t: usize = 0;
    while t < sec.jobs.len()
        invariant
            t <= sec.jobs@.len(),
            jobs@ == state.jobs_view(),
            forall|u: int| 0 <= u < sec.jobs@.len() ==> #[trigger] sec.jobs@[u] < jobs@.len(),
            row_views(padded@) == cells,
            cells == padded_rows(row_cells(jobs@, sec.jobs@, budget as nat), 2),
            padded@.len() == sec.jobs@.len(),
            base + sec.jobs@.len() <= usize::MAX,
            out@.map_values(|l: ListLine| line_view(l)) == start + seq![header] + rows_spec.take(t as int),
            rows_spec == Seq::new(
                sec.jobs@.len(),
                |u: int| row_spec(state.instant() as int, jobs@[sec.jobs@[u] as int], cells[u], base + u == state.cursor()),
            ),
        decreases sec.jobs@.len() - t,
    {
        let job = &jobs[sec.jobs[t]];
        let row = &padded[t];
        assert(row@.len() == 2) by {
            assert(row_views(padded@)[t as int] == cells[t as int]);
            assert(row_views(padded@)[t as int] == crate::columns::cell_views(row@));
            assert(crate::columns::cell_views(row@).len() == row@.len());
            assert(row_cells(jobs@, sec.jobs@, budget as nat)[t as int].len() == 2);
            assert(cells[t as int].len() == row_cells(jobs@, sec.jobs@, budget as nat)[t as int].len());
        }
        let class = StatusClass::of(job);
        let mut name = string_of(&chars_of(row[0].as_str()));
        crate::text::push_str(&mut name, GAP);
        let line = ListLine::Row(
            JobRow {
                icon: status_icon(class),
                class,
                selected: base + t == state.selected_row(),
                name,
                activity: string_of(&chars_of(row[1].as_str())),
                age: age_cell(age_label(state.now_nanos(), job).as_str()),
            },
        );
        proof {
            let cv = row_views(padded@)[t as int];
            assert(cv[0] == row@[0]@);
            assert(cv[1] == row@[1]@);
            assert(line_view(line) == rows_spec[t as int]);
        }
        let ghost before = out@;
        let ghost lv = line_view(line);
        out.push(line);
        proof {
            assert(out@.map_values(|l: ListLine| line_view(l)) =~= before.map_values(|l: ListLine| line_view(l)).push(lv));
        }
        t = t + 1;
        proof {
            assert(rows_spec.take(t as int) =~= rows_spec.take(t - 1).push(rows_spec[t - 1]));
            assert(out@.map_values(|l: ListLine| line_view(l)) =~= start + seq![header] + rows_spec.take(t as int));
        }
    }
    assert(rows_spec.take(sec.jobs@.len() as int) =~= rows_spec);
    assert(seq![header] + rows_spec =~= section_lines(
        state.jobs_view(),
        *sec,
        state.instant() as int,
        state.cursor() as int,
        base as int,
        width as nat,
    ));
}

/// A prefix of the sections flattens to a prefix of the rows.
proof fn lemma_flatten_prefix(secs: Seq<MachineSection>, k: int)
    requires
        0 <= k < secs.len(),
    ensures
        crate::state::flatten(secs.take(k + 1)) == crate::state::flatten(secs.take(k)) + secs[k].jobs@,
        crate::state::flatten(secs.take(k + 1)).len() <= crate::state::flatten(secs).len(),
    decreases secs.len() - k,
{
    assert(secs.take(k + 1).drop_last() =~= secs.take(k));
    if k + 1 < secs.len() {
        lemma_flatten_prefix(secs, k + 1);
    } else {
        assert(secs.take(k + 1) =~= secs);
    }
}

/// The job list of a sidebar `area` columns wide.
pub fn job_list_lines<R: TmuxRunner>(state: &AppState<R>, area: u16) -> (r: Vec<ListLine>)
    requires
        state.wf(),
    ensures
        r@.map_values(|l: ListLine| line_view(l)) == job_list_spec(
            state.jobs_view(),
            state.sections_view(),
            state.is_offline(),
            state.instant() as int,
            state.cursor() as int,
            area,
        ),
{
    proof {
        state.lemma_rows_are_jobs();
    }
    let sections = state.sections();
    let mut out: Vec<ListLine> = Vec::new();
    if sections.len() == 0 {
        let text = if state.offline() {
            "offline"
        } else {
            "no jobs"
        };
        out.push(ListLine::Placeholder(text));
        assert(out@.map_values(|l: ListLine| line_view(l)) =~= seq![LineSpec::Placeholder(text@)]);
        return out;
    }
    let width: usize = if area >= 8 {
        area as usize
    } else {
        8
    };
    let ghost secs = state.sections_view();
    let rows_total = state.visible_len();
    assert(state.visible_view().len() == rows_total);
    let mut base: usize = 0;
    let mut k: usize = 0;
    assert(secs.take(0) =~= Seq::<MachineSection>::empty());
    assert(out@.map_values(|l: ListLine| line_view(l)) =~= Seq::<LineSpec>::empty());
    while k < sections.len()
        invariant
            k <= secs.len(),
            sections@ == secs,
            secs == state.sections_view(),
            width == list_width(area),
            width >= 8,
            base == crate::state::flatten(secs.take(k as int)).len(),
            crate::state::flatten(secs).len() == state.visible_view().len(),
            state.visible_view().len() <= usize::MAX,
            forall|a: int, j: int|
                0 <= a < secs.len() && 0 <= j < secs[a].jobs@.len() ==> #[trigger] secs[a].jobs@[j]
                    < state.jobs_view().len(),
            out@.map_values(|l: ListLine| line_view(l)) == sections_lines(
                state.jobs_view(),
                secs.take(k as int),
                state.instant() as int,
                state.cursor() as int,
                width as nat,
            ),
        decreases secs.len() - k,
    {
        proof {
            lemma_flatten_prefix(secs, k as int);
            assert(secs.take(k + 1).drop_last() =~= secs.take(k as int));
            assert(secs.take(k + 1).last() == secs[k as int]);
        }
        let sec = &sections[k];
        push_section(&mut out, state, sec, base, width);
        base = base + sec.jobs.len();
        k = k + 1;
    }
    assert(secs.take(secs.len() as int) =~= secs);
    out
}

// ───────────────────────────── the filter bar ─────────────────────────────

/// One chip of the filter bar: the bucket's glyph and count.
pub struct FilterChip {
    pub text: String,
    pub color: u8,
    /// The filter in force: drawn bold and underlined.
    pub active: bool,
}

/// A chip's text: the glyph, then how many jobs the bucket holds.
pub open spec fn chip_text(filter: StatusFilter, count: nat) -> Seq<char> {
    filter_glyph(filter)@ + decimal(count)
}

/// A chip's colour: the bucket's own, or muted when it is empty and not the
/// filter in force.
pub open spec fn chip_color(filter: StatusFilter, count: nat, active: bool) -> u8 {
    if count == 0 && !active {
        FILTER_INACTIVE
    } else {
        filter_color(filter)
    }
}

/// The filter bar: one chip per bucket, in bar order.
pub fn filter_chips<R: TmuxRunner>(state: &AppState<R>) -> (r: Vec<FilterChip>)
    ensures
        r@.len() == 6,
        forall|k: int|
            0 <= k < 6 ==> {
                let f = filter_at(k);
                let count = count_shown(f, state.jobs_view());
                &&& (#[trigger] r@[k]).text@ == chip_text(f, count)
                &&& r@[k].active == (state.filter() == f)
                &&& r@[k].color == chip_color(f, count, state.filter() == f)
            },
{
    let counts = StatusFilter::counts(state.jobs());
    let current = state.status_filter();
    let mut out: Vec<FilterChip> = Vec::new();
    let mut k: usize = 0;
    while k < 6
        invariant
            k <= 6,
            out@.len() == k,
            current == state.filter(),
            forall|t: int| 0 <= t < 6 ==> #[trigger] counts@[t] == count_shown(filter_at(t), state.jobs_view()),
            forall|t: int|
                0 <= t < k ==> {
                    let f = filter_at(t);
                    let count = count_shown(f, state.jobs_view());
                    &&& (#[trigger] out@[t]).text@ == chip_text(f, count)
                    &&& out@[t].active == (current == f)
                    &&& out@[t].color == chip_color(f, count, current == f)
                },
        decreases 6 - k,
    {
        let filter = StatusFilter::at(k);
        let count = counts[k];
        let active = filter == current;
        let color = if count == 0 && !active {
            FILTER_INACTIVE
        } else {
            crate::colors::status_filter_color(filter)
        };
        let mut v: Vec<char> = Vec::new();
        crate::text::extend_str(&mut v, filter_icon(filter));
        crate::text::push_decimal(&mut v, count as u128);
        out.push(FilterChip { text: string_of(&v), color, active });
        k = k + 1;
    }
    out
}

// ───────────────────────────── the bottom panel ─────────────────────────────

/// The caret before the panel's tabs: folded or open.
pub fn caret(collapsed: bool) -> (r: &'static str)
    ensures
        r == (if collapsed { "▸" } else { "▾" }),
{
    if collapsed {
        "▸"
    } else {
        "▾"
    }
}

/// What the Prompt panel shows: the prompt's lines, or a muted hint when
/// there is none.
pub enum PromptPanel {
    Hint(&'static str),
    Lines(Vec<String>),
}

/// The Prompt panel: what the human last asked the selected agent. It never
/// falls back to the activity summary: that is the row's own text.
pub open spec fn prompt_panel_hint<R: TmuxRunner>(state: &AppState<R>) -> Seq<char> {
    if state.selected_spec().is_some() {
        "no prompt reported yet"@
    } else {
        "—"@
    }
}

pub fn prompt_lines<R: TmuxRunner>(state: &AppState<R>) -> (r: PromptPanel)
    requires
        state.wf(),
    ensures
        match state.prompt_spec() {
            None => r matches PromptPanel::Hint(h) && h@ == prompt_panel_hint(state),
            Some(p) => r matches PromptPanel::Lines(ls) && ls@.map_values(|l: String| l@) == lines(p),
        },
{
    match state.prompt_text() {
        None => {
            let hint = if state.selected_job().is_some() {
                "no prompt reported yet"
            } else {
                "—"
            };
            PromptPanel::Hint(hint)
        },
        Some(prompt) => {
            let v = chars_of(prompt);
            let ranges = crate::text::line_ranges(&v);
            let mut out: Vec<String> = Vec::new();
            let mut i: usize = 0;
            while i < ranges.len()
                invariant
                    i <= ranges@.len(),
                    crate::text::ranges_valid(v@, ranges@),
                    out@.len() == i,
                    forall|t: int| 0 <= t < i ==> #[trigger] out@[t]@ == crate::text::ranges_text(v@, ranges@)[t],
                decreases ranges@.len() - i,
            {
                let line = crate::text::string_of_range(&v, ranges[i].start, ranges[i].end);
                let rs = ranges[i].start;
                let re = ranges[i].end;
                assert(rs <= re && re <= v@.len());
                out.push(line);
                i = i + 1;
            }
            assert(out@.map_values(|l: String| l@) =~= crate::text::ranges_text(v@, ranges@));
            PromptPanel::Lines(out)
        },
    }
}

/// The Git panel: the error on its own, or the branch with how far it is
/// ahead and behind, then the first few rows of each list.
pub enum GitPanel {
    Error(String),
    Status { branch: String, counts: String, rows: Vec<String> },
}

/// Rows the Git panel shows: up to [`LIST_CAP`] of the staged, unstaged and
/// untracked lists each, in that order, each cut to 36 columns.
pub open spec fn git_rows(g: GitSnapshot) -> Seq<Seq<char>> {
    let cut = |rows: Seq<String>|
        rows.take(if rows.len() < LIST_CAP { rows.len() as int } else { LIST_CAP as int }).map_values(
            |r: String| truncate_spec(r@, 36),
        );
    cut(g.staged@) + cut(g.unstaged@) + cut(g.untracked@)
}

/// The ahead and behind counts after the branch.
pub open spec fn git_counts(g: GitSnapshot) -> Seq<char> {
    " ↑"@ + decimal(g.ahead as nat) + "↓"@ + decimal(g.behind as nat)
}

fn push_capped(out: &mut Vec<String>, rows: &Vec<String>)
    ensures
        final(out)@.map_values(|l: String| l@) == old(out)@.map_values(|l: String| l@)
            + rows@.take(if rows@.len() < LIST_CAP { rows@.len() as int } else { LIST_CAP as int })
            .map_values(|r: String| truncate_spec(r@, 36)),
{
    let n = if rows.len() < LIST_CAP {
        rows.len()
    } else {
        LIST_CAP
    };
    let ghost start = old(out)@.map_values(|l: String| l@);
    let ghost want = rows@.take(n as int).map_values(|r: String| truncate_spec(r@, 36));
    let mut i: usize = 0;
    while i < n
        invariant
            i <= n,
            n <= rows@.len(),
            want == rows@.take(n as int).map_values(|r: String| truncate_spec(r@, 36)),
            out@.map_values(|l: String| l@) == start + want.take(i as int),
        decreases n - i,
    {
        let line = truncate(rows[i].as_str(), 36);
        let ghost before = out@;
        out.push(line);
        assert(out@.map_values(|l: String| l@) =~= before.map_values(|l: String| l@).push(want[i as int]));
        assert(want.take(i + 1) =~= want.take(i as int).push(want[i as int]));
        i = i + 1;
    }
    assert(want.take(n as int) =~= want);
}

pub fn git_lines<R: TmuxRunner>(state: &AppState<R>) -> (r: GitPanel)
    ensures
        match state.git().error {
            Some(e) => r matches GitPanel::Error(t) && t@ == e@,
            None => r matches GitPanel::Status { branch, counts, rows } && branch@ == truncate_spec(
                state.git().branch@,
                16,
            ) && counts@ == git_counts(state.git()) && rows@.map_values(|l: String| l@) == git_rows(
                state.git(),
            ),
        },
{
    let git = state.git_view();
    if let Some(err) = &git.error {
        return GitPanel::Error(string_of(&chars_of(err.as_str())));
    }
    let branch = truncate(git.branch.as_str(), 16);
    let mut v: Vec<char> = Vec::new();
    crate::text::extend_str(&mut v, " ↑");
    crate::text::push_decimal(&mut v, git.ahead as u128);
    crate::text::extend_str(&mut v, "↓");
    crate::text::push_decimal(&mut v, git.behind as u128);
    let mut rows: Vec<String> = Vec::new();
    assert(rows@.map_values(|l: String| l@) =~= Seq::<Seq<char>>::empty());
    push_capped(&mut rows, &git.staged);
    push_capped(&mut rows, &git.unstaged);
    push_capped(&mut rows, &git.untracked);
    GitPanel::Status { branch, counts: string_of(&v), rows }
}

} // verus!
