//! Monospace column layout for the sidebar and the popup: how wide a cell is,
//! padding cells into columns, and cutting a cell to fit.
//!
//! Widths are terminal columns as the `unicode-width` crate measures them.
use vstd::prelude::*;

use crate::frame::JobView;
use crate::text::{chars_of, decimal, push_char, push_decimal, string_of};

verus! {

/// Two spaces between padded columns.
pub const GAP: &'static str = "  ";

/// The displayed width of a string, in columns (`UnicodeWidthStr::width`).
pub uninterp spec fn str_width(s: Seq<char>) -> nat;

/// The displayed width of one character, `None` for a control character
/// (`UnicodeWidthChar::width`).
pub uninterp spec fn char_width(c: char) -> Option<usize>;

/// Printable ASCII: `' '` through `'~'`.
pub open spec fn printable_ascii(c: char) -> bool {
    0x20 <= (c as u32) && (c as u32) < 0x7f
}

/// `UnicodeWidthStr::width` from `unicode-width`. The crate documents a
/// string's width as the sum of its characters' widths outside a list of
/// sequences (emoji, `\r\n`, script ligatures) none of which is printable
/// ASCII, and gives each printable ASCII character width 1; so a printable
/// ASCII string is as wide as it is long. Wider characters are named, not
/// stated.
#[verifier::external_body]
pub fn display_width(text: &str) -> (w: usize)
    ensures
        w == str_width(text@),
        (forall|i: int| 0 <= i < text@.len() ==> printable_ascii(#[trigger] text@[i])) ==> w
            == text@.len(),
{
    unicode_width::UnicodeWidthStr::width(text)
}

/// `UnicodeWidthChar::width` from `unicode-width`: below U+0020 and from
/// U+007F to U+009F a character is a control character (`None`), and printable
/// ASCII is 1 wide, as its source reads; other characters are named.
#[verifier::external_body]
fn char_display_width(c: char) -> (w: Option<usize>)
    ensures
        w == char_width(c),
        (c as u32) < 0x20 ==> w is None,
        printable_ascii(c) ==> w == Some(1usize),
        0x7f <= (c as u32) < 0xa0 ==> w is None,
{
    unicode_width::UnicodeWidthChar::width(c)
}

/// A character's width with control characters counted as 0.
pub open spec fn char_cols(c: char) -> nat {
    match char_width(c) {
        Some(w) => w as nat,
        None => 0,
    }
}

/// `cell` followed by spaces out to `width` columns; a cell already that wide
/// is left as it is.
pub open spec fn pad_cell_spec(cell: Seq<char>, width: nat) -> Seq<char> {
    if str_width(cell) >= width {
        cell
    } else {
        cell + Seq::new((width - str_width(cell)) as nat, |i: int| ' ')
    }
}

pub fn pad_cell(cell: &str, width: usize) -> (r: String)
    ensures
        r@ == pad_cell_spec(cell@, width as nat),
{
    let w = display_width(cell);
    let mut out: Vec<char> = chars_of(cell);
    if w >= width {
        return cell.to_owned();
    }
    let mut k = w;
    while k < width
        invariant
            w <= k <= width,
            w == str_width(cell@),
            out@ == cell@ + Seq::new((k - w) as nat, |i: int| ' '),
        decreases width - k,
    {
        out.push(' ');
        k = k + 1;
        assert(out@ =~= cell@ + Seq::new((k - w) as nat, |i: int| ' '));
    }
    string_of(&out)
}

/// The width of column `col`: the widest cell in it, over the rows that
/// have one.
pub open spec fn column_width(rows: Seq<Seq<Seq<char>>>, col: int) -> nat
    decreases rows.len(),
{
    if rows.len() == 0 {
        0
    } else {
        let rest = column_width(rows.drop_last(), col);
        if col < rows.last().len() && str_width(rows.last()[col]) > rest {
            str_width(rows.last()[col])
        } else {
            rest
        }
    }
}

/// A row padded column by column: the first `padded` cells to their
/// column's width, the rest as they are.
pub open spec fn pad_row(rows: Seq<Seq<Seq<char>>>, row: Seq<Seq<char>>, padded: nat) -> Seq<Seq<char>> {
    Seq::new(
        row.len(),
        |col: int|
            if col < padded {
                pad_cell_spec(row[col], column_width(rows, col))
            } else {
                row[col]
            },
    )
}

pub open spec fn cell_views(row: Seq<String>) -> Seq<Seq<char>> {
    row.map_values(|c: String| c@)
}

pub open spec fn row_views(rows: Seq<Vec<String>>) -> Seq<Seq<Seq<char>>> {
    rows.map_values(|r: Vec<String>| cell_views(r@))
}

/// Every row padded.
pub open spec fn padded_rows(rows: Seq<Seq<Seq<char>>>, padded: nat) -> Seq<Seq<Seq<char>>> {
    Seq::new(rows.len(), |k: int| pad_row(rows, rows[k], padded))
}

/// Left-align the first `padded` columns of `cells` to the widest cell in
/// each column.
pub fn pad_columns(cells: &[Vec<String>], padded: usize) -> (r: Vec<Vec<String>>)
    ensures
        row_views(r@) == padded_rows(row_views(cells@), padded as nat),
{
    let ghost rows = row_views(cells@);
    let mut widths: Vec<usize> = Vec::new();
    let mut col: usize = 0;
    while col < padded
        invariant
            col <= padded,
            rows == row_views(cells@),
            widths@.len() == col,
            forall|c: int| 0 <= c < col ==> widths@[c] == column_width(rows, c),
        decreases padded - col,
    {
        let mut width: usize = 0;
        let mut i: usize = 0;
        assert(rows.take(0) =~= Seq::<Seq<Seq<char>>>::empty());
        while i < cells.len()
            invariant
                i <= cells.len(),
                rows == row_views(cells@),
                width == column_width(rows.take(i as int), col as int),
            decreases cells.len() - i,
        {
            assert(rows.take(i + 1).drop_last() =~= rows.take(i as int));
            assert(rows.take(i + 1).last() == rows[i as int]);
            assert(rows[i as int] == cell_views(cells@[i as int]@));
            if col < cells[i].len() {
                let w = display_width(cells[i][col].as_str());
                if w > width {
                    width = w;
                }
            }
            i = i + 1;
        }
        assert(rows.take(cells.len() as int) =~= rows);
        widths.push(width);
        col = col + 1;
    }
    let mut out: Vec<Vec<String>> = Vec::new();
    let mut i: usize = 0;
    while i < cells.len()
        invariant
            i <= cells.len(),
            rows == row_views(cells@),
            widths@.len() == padded,
            forall|c: int| 0 <= c < padded ==> widths@[c] == column_width(rows, c),
            out@.len() == i,
            rows.len() == cells@.len(),
            row_views(out@) == padded_rows(rows, padded as nat).take(i as int),
        decreases cells.len() - i,
    {
        let row = &cells[i];
        let ghost rv = rows[i as int];
        assert(rv == cell_views(row@));
        let mut padded_row: Vec<String> = Vec::new();
        let mut c: usize = 0;
        while c < row.len()
            invariant
                c <= row.len(),
                rv == cell_views(row@),
                widths@.len() == padded,
                forall|k: int| 0 <= k < padded ==> widths@[k] == column_width(rows, k),
                padded_row@.len() == c,
                rv.len() == row@.len(),
                cell_views(padded_row@) == pad_row(rows, rv, padded as nat).take(c as int),
            decreases row.len() - c,
        {
            let cell = if c < padded {
                pad_cell(row[c].as_str(), widths[c])
            } else {
                row[c].clone()
            };
            assert(rv[c as int] == row@[c as int]@);
            assert(c < padded ==> widths@[c as int] == column_width(rows, c as int));
            assert(cell@ == pad_row(rows, rv, padded as nat)[c as int]);
            let ghost cv = cell@;
            let ghost before = padded_row@;
            padded_row.push(cell);
            assert(padded_row@ == before.push(padded_row@[c as int]));
            assert(padded_row@[c as int]@ == cv);
            assert(cell_views(padded_row@) =~= cell_views(before).push(cv));
            assert(cell_views(padded_row@) =~= pad_row(rows, rv, padded as nat).take(c + 1));
            c = c + 1;
        }
        assert(pad_row(rows, rv, padded as nat).take(row.len() as int) =~= pad_row(rows, rv, padded as nat));
        let ghost pv = cell_views(padded_row@);
        let ghost before = out@;
        out.push(padded_row);
        assert(row_views(out@) =~= row_views(before).push(pv));
        assert(row_views(out@) =~= padded_rows(rows, padded as nat).take(i + 1));
        i = i + 1;
    }
    assert(padded_rows(rows, padded as nat).take(cells.len() as int) =~= padded_rows(rows, padded as nat));
    out
}

/// The characters kept of `s` when `used` columns are taken and `max` is
/// the limit: each character is kept while it and the `…` still fit; the
/// first that does not is replaced by `…` and ends the text.
pub open spec fn cut_from(s: Seq<char>, used: nat, max: nat) -> Seq<char>
    decreases s.len(),
{
    if s.len() == 0 {
        seq![]
    } else if used + char_cols(s[0]) + 1 > max {
        seq!['…']
    } else {
        seq![s[0]] + cut_from(s.drop_first(), used + char_cols(s[0]), max)
    }
}

/// What [`truncate`] answers: `text` when it fits in `max` columns, else cut
/// with `…` marking what was dropped.
pub open spec fn truncate_spec(text: Seq<char>, max: nat) -> Seq<char> {
    if str_width(text) <= max {
        text
    } else {
        cut_from(text, 0, max)
    }
}

/// `text` cut to `max` display columns, with `…` marking what was dropped.
pub fn truncate(text: &str, max: usize) -> (r: String)
    ensures
        r@ == truncate_spec(text@, max as nat),
{
    if display_width(text) <= max {
        return text.to_owned();
    }
    let v = chars_of(text);
    let mut out: Vec<char> = Vec::new();
    let mut width: usize = 0;
    let mut i: usize = 0;
    assert(v@.skip(0) =~= v@);
    while i < v.len()
        invariant
            i <= v.len(),
            v@ == text@,
            str_width(text@) > max,
            width <= max,
            out@ + cut_from(v@.skip(i as int), width as nat, max as nat) == cut_from(v@, 0, max as nat),
        decreases v.len() - i,
    {
        let c = v[i];
        let w = match char_display_width(c) {
            Some(n) => n,
            None => 0,
        };
        assert(v@.skip(i as int)[0] == c);
        assert(v@.skip(i as int).drop_first() =~= v@.skip(i + 1));
        assert(char_cols(c) == w);
        if w >= max - width {
            assert(cut_from(v@.skip(i as int), width as nat, max as nat) == seq!['…']);
            out.push('…');
            assert(out@ =~= cut_from(v@, 0, max as nat));
            return string_of(&out);
        }
        let ghost before = out@;
        out.push(c);
        assert(before + cut_from(v@.skip(i as int), width as nat, max as nat) =~= out@ + cut_from(
            v@.skip(i + 1),
            (width + w) as nat,
            max as nat,
        ));
        width = width + w;
        i = i + 1;
    }
    assert(v@.skip(i as int) =~= Seq::<char>::empty());
    assert(out@ + Seq::<char>::empty() =~= out@);
    string_of(&out)
}

} // verus!

verus! {

// ───────────────────────────── what a cell says ─────────────────────────────

/// What an empty cell shows.
pub const MISSING: &'static str = "-";

/// A cell's text: the text itself, or `-` when it is empty.
pub open spec fn cell_spec(text: Seq<char>) -> Seq<char> {
    if text.len() == 0 {
        seq!['-']
    } else {
        text
    }
}

pub fn cell_text(text: &str) -> (r: &str)
    ensures
        r@ == cell_spec(text@),
{
    if text.is_empty() {
        proof {
            reveal_strlit("-");
        }
        MISSING
    } else {
        text
    }
}

/// What a job is doing, in words: the title of what it asks of a human when
/// it asks at `suggested` or louder, else the summary of its current
/// activity; empty when the relevant field is absent.
pub open spec fn activity_spec(job: JobView) -> Seq<char> {
    if job.attention.level.spec_rank() >= 2 {
        match job.attention.title {
            Some(t) => t@,
            None => Seq::empty(),
        }
    } else {
        match job.current {
            Some(c) => match c.summary {
                Some(s) => s@,
                None => Seq::empty(),
            },
            None => Seq::empty(),
        }
    }
}

pub fn activity_text(job: &JobView) -> (r: &str)
    ensures
        r@ == activity_spec(*job),
{
    proof {
        reveal_strlit("");
    }
    if job.attention.level.rank() >= 2 {
        match &job.attention.title {
            Some(t) => t.as_str(),
            None => "",
        }
    } else {
        match &job.current {
            Some(c) => match &c.summary {
                Some(s) => s.as_str(),
                None => "",
            },
            None => "",
        }
    }
}

/// Nanoseconds in a second.
pub const NANOS_PER_SECOND: u128 = 1_000_000_000;

/// Whole seconds from `then` to `now`; 0 when `then` is not in the past.
pub open spec fn elapsed_seconds(now: int, then: int) -> nat {
    if now <= then {
        0
    } else {
        ((now - then) / 1_000_000_000) as nat
    }
}

/// An age in the largest unit it fills: seconds under a minute, minutes under
/// an hour, hours under a day, else days.
pub open spec fn age_spec(secs: nat) -> Seq<char> {
    if secs < 60 {
        decimal(secs).push('s')
    } else if secs < 3600 {
        decimal(secs / 60).push('m')
    } else if secs < 86400 {
        decimal(secs / 3600).push('h')
    } else {
        decimal(secs / 86400).push('d')
    }
}

/// The age a job shows at `now`: how long ago it last updated, or `-` when
/// it never said.
pub open spec fn age_label_spec(now: int, job: JobView) -> Seq<char> {
    match job.updated_at {
        Some(t) => age_spec(elapsed_seconds(now, t as int)),
        None => seq!['-'],
    }
}

fn whole_seconds_since(now: i128, then: i128) -> (s: u128)
    ensures
        s == elapsed_seconds(now as int, then as int),
{
    if now <= then {
        0
    } else if then >= 0 || now < 0 {
        let diff: i128 = now - then;
        (diff as u128) / NANOS_PER_SECOND
    } else {
        let a: u128 = now as u128;
        let b: u128 = (-(then + 1)) as u128;
        (a + b + 1) / NANOS_PER_SECOND
    }
}

/// How long ago `job` last updated, measured at `now` (Unix nanoseconds).
pub fn age_label(now: i128, job: &JobView) -> (r: String)
    ensures
        r@ == age_label_spec(now as int, *job),
{
    match job.updated_at {
        None => {
            proof {
                reveal_strlit("-");
            }
            MISSING.to_owned()
        },
        Some(t) => {
            let secs = whole_seconds_since(now, t);
            let mut v: Vec<char> = Vec::new();
            if secs < 60 {
                push_decimal(&mut v, secs);
                v.push('s');
            } else if secs < 3600 {
                push_decimal(&mut v, secs / 60);
                v.push('m');
            } else if secs < 86400 {
                push_decimal(&mut v, secs / 3600);
                v.push('h');
            } else {
                push_decimal(&mut v, secs / 86400);
                v.push('d');
            }
            string_of(&v)
        },
    }
}

} // verus!
