//! The read-only job list behind `prefix + N`.
//!
//! Read-only is structural: [`PopupRenderer::render`] takes job facts and
//! answers a string. There is no action, no key and no callback.
//!
//! Row format: `{icon} {name}  {activity} {age}`: the name and activity
//! columns padded to their widest cell, the age unpadded, every line ending
//! in `\n`. A popup is plain stdout, not a tmux option value, so nothing is
//! escaped: a job called `fix #42` prints as `fix #42`.
use vstd::prelude::*;

use crate::columns::{
    activity_spec, activity_text, age_label, age_label_spec, cell_spec, cell_text, pad_columns,
    padded_rows, row_views, GAP,
};
use crate::frame::JobView;
use crate::icons::{status_glyph, status_icon};
use crate::status::{class_of, StatusClass};
use crate::text::{push_char, push_str};

verus! {

/// What a popup with nothing to show prints.
pub const EMPTY: &'static str = "nerve: no jobs";

/// The two padded columns: session name and current activity.
const PADDED_COLUMNS: usize = 2;

/// The cells of one job's row before padding: name, activity, age.
pub open spec fn popup_cells(now: int, job: JobView) -> Seq<Seq<char>> {
    seq![cell_spec(job.name@), cell_spec(activity_spec(job)), age_label_spec(now, job)]
}

/// The unpadded cells of every row.
pub open spec fn popup_rows(now: int, jobs: Seq<JobView>) -> Seq<Seq<Seq<char>>> {
    Seq::new(jobs.len(), |k: int| popup_cells(now, jobs[k]))
}

/// One printed line: the status glyph, a space, the padded name, the gap, the
/// padded activity, a space, the age and a newline.
pub open spec fn popup_line(job: JobView, cells: Seq<Seq<char>>) -> Seq<char> {
    status_glyph(class_of(job))@ + seq![' '] + cells[0] + GAP@ + cells[1] + seq![' '] + cells[2]
        + seq!['\n']
}

/// The lines of the first `n` rows, one after the other.
pub open spec fn popup_lines(jobs: Seq<JobView>, padded: Seq<Seq<Seq<char>>>, n: nat) -> Seq<char>
    decreases n,
{
    if n == 0 {
        Seq::empty()
    } else {
        popup_lines(jobs, padded, (n - 1) as nat) + popup_line(
            jobs[n - 1],
            padded[n - 1],
        )
    }
}

/// Everything a popup prints at `now` for `jobs`.
pub open spec fn popup_text(now: int, jobs: Seq<JobView>) -> Seq<char> {
    if jobs.len() == 0 {
        EMPTY@.push('\n')
    } else {
        popup_lines(jobs, padded_rows(popup_rows(now, jobs), 2), jobs.len())
    }
}

/// Renders job rows against one frozen reading of the clock.
pub struct PopupRenderer {
    now: i128,
}

impl PopupRenderer {
    /// The instant ages are measured against, as Unix nanoseconds.
    pub closed spec fn now(&self) -> int {
        self.now as int
    }

    /// The clock is read once, by whoever starts the popup, and frozen here.
    pub fn at(now: i128) -> (r: PopupRenderer)
        ensures
            r.now() == now,
    {
        PopupRenderer { now }
    }

    /// One line per job, in the order given: ordering belongs to the hub.
    pub fn render(&self, jobs: &[JobView]) -> (r: String)
        ensures
            r@ == popup_text(self.now(), jobs@),
    {
        if jobs.len() == 0 {
            let mut out = EMPTY.to_owned();
            push_char(&mut out, '\n');
            return out;
        }
        let mut rows: Vec<Vec<String>> = Vec::new();
        let mut k: usize = 0;
        while k < jobs.len()
            invariant
                k <= jobs.len(),
                rows@.len() == k,
                forall|i: int| 0 <= i < k ==> crate::columns::cell_views(#[trigger] rows@[i]@) == popup_cells(self.now(), jobs@[i]),
            decreases jobs.len() - k,
        {
            let job = &jobs[k];
            let mut row: Vec<String> = Vec::new();
            row.push(cell_text(job.name.as_str()).to_owned());
            row.push(cell_text(activity_text(job)).to_owned());
            row.push(age_label(self.now, job));
            proof {
                assert(crate::columns::cell_views(row@) =~= popup_cells(self.now(), jobs@[k as int]));
            }
            rows.push(row);
            k = k + 1;
        }
        assert(row_views(rows@) =~= popup_rows(self.now(), jobs@));
        let padded = pad_columns(rows.as_slice(), PADDED_COLUMNS);
        let ghost cells = padded_rows(popup_rows(self.now(), jobs@), 2);
        assert(row_views(padded@) == cells);
        let mut rendered = String::new();
        let mut i: usize = 0;
        while i < jobs.len()
            invariant
                i <= jobs.len(),
                jobs@.len() == padded@.len(),
                row_views(padded@) == cells,
                cells == padded_rows(popup_rows(self.now(), jobs@), 2),
                rendered@ == popup_lines(jobs@, cells, i as nat),
            decreases jobs.len() - i,
        {
            let job = &jobs[i];
            let row = &padded[i];
            assert(row@.len() == 3) by {
                assert(row_views(padded@)[i as int] == cells[i as int]);
                assert(popup_rows(self.now(), jobs@)[i as int] == popup_cells(self.now(), jobs@[i as int]));
                assert(cells[i as int].len() == 3);
            }
            let class: StatusClass = StatusClass::of(job);
            push_str(&mut rendered, status_icon(class));
            push_char(&mut rendered, ' ');
            push_str(&mut rendered, row[0].as_str());
            push_str(&mut rendered, GAP);
            push_str(&mut rendered, row[1].as_str());
            push_char(&mut rendered, ' ');
            push_str(&mut rendered, row[2].as_str());
            push_char(&mut rendered, '\n');
            proof {
                let cv = row_views(padded@)[i as int];
                assert(cv[0] == row@[0]@);
                assert(cv[1] == row@[1]@);
                assert(cv[2] == row@[2]@);
                assert(rendered@ =~= popup_lines(jobs@, cells, (i + 1) as nat));
            }
            i = i + 1;
        }
        rendered
    }
}

/// Every line a popup prints ends with a newline, the last one included.
pub proof fn lemma_popup_ends_in_newline(now: int, jobs: Seq<JobView>)
    ensures
        popup_text(now, jobs).len() > 0,
        popup_text(now, jobs).last() == '\n',
{
    if jobs.len() > 0 {
        let padded = padded_rows(popup_rows(now, jobs), 2);
        let n = jobs.len();
        let line = popup_line(jobs[n - 1], padded[n - 1]);
        assert(line.last() == '\n');
        assert(popup_lines(jobs, padded, n) == popup_lines(jobs, padded, (n - 1) as nat) + line);
    }
}

} // verus!
