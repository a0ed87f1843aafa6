//! `prefix + e`: open (no focus steal) or toggle focus; `prefix + q`: close
//! when the sidebar pane is focused.
//!
//! 1. closed: open the sidebar, focus stays on the content pane
//! 2. open, sidebar focused: unfocus (back to content)
//! 3. open, sidebar unfocused: focus the sidebar
//!
//! Auto-create (`--create-only`) is the same open-without-focus path.
use vstd::prelude::*;

use crate::machine::opt_string_view;
use crate::text::{
    chars_of, find_char, lines, parse_i32_in, parse_i32_spec, parse_u32_in, parse_u32_spec,
    range_eq, string_of_range, word_spans, words,
};
use crate::tmux::{
    agree, argv, display_args, display_message, extends, lemma_agree_shorter, lemma_extends_agree, lemma_extends_refl,
    lemma_extends_trans, lemma_one_more_extends, one_more_call, pane_exists, reply_text, run_tmux, TmuxCall, Tmux,
    TmuxRunner, PANE_ROLE, SIDEBAR_ROLE,
};

verus! {

/// Window option: the pane to restore when unfocusing the sidebar.
pub const RETURN_PANE: &'static str = "@nerve_sidebar_return";

// ───────────────────────────── reading `list-panes` ─────────────────────────────

/// The pane and role of a `pane|role` line, split at its first `|`.
pub open spec fn pane_role(line: Seq<char>) -> Option<(Seq<char>, Seq<char>)> {
    match find_char(line, '|') {
        Some(i) => Some((line.take(i as int), line.skip(i as int + 1))),
        None => None,
    }
}

/// Whether a `pane|role` line is the sidebar's.
pub open spec fn is_sidebar_line(line: Seq<char>) -> bool {
    pane_role(line) matches Some((_, role)) && role == SIDEBAR_ROLE@
}

/// Whether a window has nothing left in it but the sidebar: at least one
/// line, and every line the sidebar's. A line without a role is somebody's
/// shell, and a line that cannot be read cannot be claimed as the sidebar.
pub open spec fn only_sidebar_spec(ls: Seq<Seq<char>>) -> bool {
    ls.len() > 0 && forall|i: int| 0 <= i < ls.len() ==> is_sidebar_line(#[trigger] ls[i])
}

/// The pane of the first sidebar line.
pub open spec fn first_sidebar(ls: Seq<Seq<char>>) -> Option<Seq<char>>
    decreases ls.len(),
{
    if ls.len() == 0 {
        None
    } else if is_sidebar_line(ls[0]) {
        match pane_role(ls[0]) {
            Some((pane, _)) => Some(pane),
            None => None,
        }
    } else {
        first_sidebar(ls.drop_first())
    }
}

/// The `|` of `v[from..to]`, as a position in `v`, with what that says of
/// the line.
fn split_bar(v: &Vec<char>, from: usize, to: usize) -> (k: usize)
    requires
        from <= to <= v.len(),
    ensures
        from <= k <= to,
        k == to ==> pane_role(v@.subrange(from as int, to as int)).is_none(),
        k < to ==> pane_role(v@.subrange(from as int, to as int)) == Some(
            (v@.subrange(from as int, k as int), v@.subrange(k + 1, to as int)),
        ),
{
    let ghost l = v@.subrange(from as int, to as int);
    let k = crate::text::before_first_in(v, from, to, '|');
    proof {
        assert forall|m: int| 0 <= m < k - from implies #[trigger] l[m] != '|' by {
            assert(l[m] == v@[from + m]);
        }
        assert(l.skip(0) =~= l);
        if k < to {
            assert(l[k - from] == '|');
            crate::text::lemma_find_char_at(l, '|', 0, k - from);
            assert(l.take(k - from) =~= v@.subrange(from as int, k as int));
            assert(l.skip(k - from + 1) =~= v@.subrange(k + 1, to as int));
        } else {
            crate::text::lemma_find_char_none(l, '|', 0);
        }
    }
    k
}

/// Whether a window has nothing left in it but the sidebar.
pub fn only_sidebar_remains(panes: &str) -> (b: bool)
    ensures
        b == only_sidebar_spec(lines(panes@)),
{
    let v = chars_of(panes);
    let ranges = crate::text::line_ranges(&v);
    let ghost ls = crate::text::ranges_text(v@, ranges@);
    let mut i: usize = 0;
    while i < ranges.len()
        invariant
            i <= ranges.len(),
            ls == crate::text::ranges_text(v@, ranges@),
            ls == lines(panes@),
            crate::text::ranges_valid(v@, ranges@),
            forall|j: int| 0 <= j < i ==> is_sidebar_line(#[trigger] ls[j]),
        decreases ranges.len() - i,
    {
        let s = ranges[i].start;
        let e = ranges[i].end;
        assert(ls[i as int] == v@.subrange(s as int, e as int));
        let k = split_bar(&v, s, e);
        if k == e || !range_eq(&v, k + 1, e, SIDEBAR_ROLE) {
            return false;
        }
        i = i + 1;
    }
    ranges.len() > 0
}

/// The sidebar pane among `list-panes` lines, if there is one.
pub fn find_sidebar(output: &str) -> (r: Option<String>)
    ensures
        opt_string_view(r) == first_sidebar(lines(output@)),
{
    let v = chars_of(output);
    let ranges = crate::text::line_ranges(&v);
    let ghost ls = crate::text::ranges_text(v@, ranges@);
    let mut i: usize = 0;
    assert(ls.skip(0) =~= ls);
    while i < ranges.len()
        invariant
            i <= ranges.len(),
            ls == crate::text::ranges_text(v@, ranges@),
            ls == lines(output@),
            crate::text::ranges_valid(v@, ranges@),
            first_sidebar(ls) == first_sidebar(ls.skip(i as int)),
        decreases ranges.len() - i,
    {
        let s = ranges[i].start;
        let e = ranges[i].end;
        assert(ls.skip(i as int).drop_first() =~= ls.skip(i + 1));
        assert(ls.skip(i as int)[0] == v@.subrange(s as int, e as int));
        let k = split_bar(&v, s, e);
        if k < e && range_eq(&v, k + 1, e, SIDEBAR_ROLE) {
            return Some(string_of_range(&v, s, k));
        }
        i = i + 1;
    }
    assert(ls.skip(i as int) =~= Seq::<Seq<char>>::empty());
    None
}

// ───────────────────────────── where the sidebar goes ─────────────────────────────

/// Which edge of the window the sidebar takes.
#[derive(Clone, Copy, Debug, PartialEq, Eq, Structural)]
pub enum SidebarPosition {
    Left,
    Right,
}

/// `right` in any case and padding is the right edge; anything else, the
/// left.
pub open spec fn position_spec(raw: Seq<char>) -> SidebarPosition {
    if crate::text::lower(crate::text::trim(raw)) == "right"@ {
        SidebarPosition::Right
    } else {
        SidebarPosition::Left
    }
}

impl SidebarPosition {
    pub fn from_setting(raw: &str) -> (p: SidebarPosition)
        ensures
            p == position_spec(raw@),
    {
        let v = chars_of(raw);
        let (a, b) = crate::text::trim_bounds(&v);
        let t = crate::text::sub_vec(&v, a, b);
        let low = crate::text::lower_vec(&t);
        if crate::text::vec_eq(&low, "right") {
            SidebarPosition::Right
        } else {
            SidebarPosition::Left
        }
    }
}

/// `split-window` flags for an edge: full height, before or after.
pub fn split_window_flags(position: SidebarPosition) -> (f: &'static str)
    ensures
        f@ == (match position {
            SidebarPosition::Left => "-hfb"@,
            SidebarPosition::Right => "-hf"@,
        }),
{
    match position {
        SidebarPosition::Left => "-hfb",
        SidebarPosition::Right => "-hf",
    }
}

/// A `#{pane_left} #{pane_width} #{pane_id}` line: left, width and pane.
pub open spec fn geometry(line: Seq<char>) -> Option<(i32, i32, Seq<char>)> {
    let ws = words(line, false);
    if ws.len() < 3 {
        None
    } else {
        match (parse_i32_spec(ws[0]), parse_i32_spec(ws[1])) {
            (Some(left), Some(width)) => Some((left, width, ws[2])),
            _ => None,
        }
    }
}

/// How far a pane sits toward the sidebar's edge.
pub open spec fn edge_score(left: i32, width: i32, position: SidebarPosition) -> int {
    match position {
        SidebarPosition::Left => 0 - left,
        SidebarPosition::Right => left + width,
    }
}

/// The pane nearest the edge so far, read on over `ls`: the first of equals
/// wins, and a line that cannot be read ends the search with no answer.
pub open spec fn best_from(
    ls: Seq<Seq<char>>,
    position: SidebarPosition,
    best: Option<(int, Seq<char>)>,
) -> Option<Option<(int, Seq<char>)>>
    decreases ls.len(),
{
    if ls.len() == 0 {
        Some(best)
    } else {
        match geometry(ls[0]) {
            None => None,
            Some((left, width, pane)) => {
                let score = edge_score(left, width, position);
                let next = match best {
                    Some((prev, _)) => if score > prev {
                        Some((score, pane))
                    } else {
                        best
                    },
                    None => Some((score, pane)),
                };
                best_from(ls.drop_first(), position, next)
            },
        }
    }
}

/// What [`target_pane_for_position`] answers.
pub open spec fn target_spec(output: Seq<char>, position: SidebarPosition) -> Option<Seq<char>> {
    match best_from(lines(output), position, None) {
        Some(Some((_, pane))) => Some(pane),
        _ => None,
    }
}

/// Whether every score read before the search ends fits an `i32`.
pub open spec fn geometry_fits(ls: Seq<Seq<char>>, position: SidebarPosition) -> bool
    decreases ls.len(),
{
    if ls.len() == 0 {
        true
    } else {
        match geometry(ls[0]) {
            None => true,
            Some((left, width, _)) => {
                &&& i32::MIN <= left + width <= i32::MAX
                &&& (position is Left ==> left > i32::MIN)
                &&& geometry_fits(ls.drop_first(), position)
            },
        }
    }
}

/// The geometry of line `v[from..to]`, with where its pane stands.
fn geometry_in(v: &Vec<char>, from: usize, to: usize) -> (r: Option<(i32, i32, usize, usize)>)
    requires
        from <= to <= v.len(),
    ensures
        match r {
            Some((left, width, ps, pe)) => ps <= pe <= v.len() && geometry(
                v@.subrange(from as int, to as int),
            ) == Some((left, width, v@.subrange(ps as int, pe as int))),
            None => geometry(v@.subrange(from as int, to as int)).is_none(),
        },
{
    let w = crate::text::sub_vec(v, from, to);
    let spans = word_spans(&w, false);
    if spans.len() < 3 {
        return None;
    }
    let left = parse_i32_in(&w, spans[0].start, spans[0].end);
    let width = parse_i32_in(&w, spans[1].start, spans[1].end);
    match (left, width) {
        (Some(l), Some(wd)) => {
            let ps = spans[2].start;
            let pe = spans[2].end;
            assert(w@.subrange(ps as int, pe as int) =~= v@.subrange(from + ps, from + pe));
            Some((l, wd, from + ps, from + pe))
        },
        _ => None,
    }
}

/// Whether the geometry listing can be scored without overflow.
pub fn geometry_fits_exec(output: &str, position: SidebarPosition) -> (b: bool)
    ensures
        b == geometry_fits(lines(output@), position),
{
    let v = chars_of(output);
    let ranges = crate::text::line_ranges(&v);
    let ghost ls = crate::text::ranges_text(v@, ranges@);
    let mut i: usize = 0;
    assert(ls.skip(0) =~= ls);
    while i < ranges.len()
        invariant
            i <= ranges.len(),
            ls == crate::text::ranges_text(v@, ranges@),
            ls == lines(output@),
            crate::text::ranges_valid(v@, ranges@),
            geometry_fits(ls, position) == geometry_fits(ls.skip(i as int), position),
        decreases ranges.len() - i,
    {
        let s = ranges[i].start;
        let e = ranges[i].end;
        assert(ls.skip(i as int).drop_first() =~= ls.skip(i + 1));
        assert(ls.skip(i as int)[0] == v@.subrange(s as int, e as int));
        match geometry_in(&v, s, e) {
            None => return true,
            Some((left, width, _, _)) => {
                let sum = left as i64 + width as i64;
                if sum < i32::MIN as i64 || sum > i32::MAX as i64 {
                    return false;
                }
                if position == SidebarPosition::Left && left == i32::MIN {
                    return false;
                }
            },
        }
        i = i + 1;
    }
    assert(ls.skip(i as int) =~= Seq::<Seq<char>>::empty());
    true
}

/// The pane nearest the sidebar's edge (the leftmost for `Left`, the one
/// reaching furthest right for `Right`), first of equals; `None` when no line
/// was read or a line could not be.
pub fn target_pane_for_position(output: &str, position: SidebarPosition) -> (r: Option<String>)
    requires
        geometry_fits(lines(output@), position),
    ensures
        opt_string_view(r) == target_spec(output@, position),
{
    let v = chars_of(output);
    let ranges = crate::text::line_ranges(&v);
    let ghost ls = crate::text::ranges_text(v@, ranges@);
    let mut best: Option<(i32, usize, usize)> = None;
    let mut i: usize = 0;
    assert(ls.skip(0) =~= ls);
    while i < ranges.len()
        invariant
            i <= ranges.len(),
            ls == crate::text::ranges_text(v@, ranges@),
            ls == lines(output@),
            crate::text::ranges_valid(v@, ranges@),
            geometry_fits(ls.skip(i as int), position),
            match best {
                Some((score, ps, pe)) => ps <= pe <= v.len(),
                None => true,
            },
            best_from(ls, position, None) == best_from(
                ls.skip(i as int),
                position,
                match best {
                    Some((score, ps, pe)) => Some(
                        (score as int, v@.subrange(ps as int, pe as int)),
                    ),
                    None => None,
                },
            ),
        decreases ranges.len() - i,
    {
        let s = ranges[i].start;
        let e = ranges[i].end;
        assert(ls.skip(i as int).drop_first() =~= ls.skip(i + 1));
        assert(ls.skip(i as int)[0] == v@.subrange(s as int, e as int));
        match geometry_in(&v, s, e) {
            None => return None,
            Some((left, width, ps, pe)) => {
                let score = match position {
                    SidebarPosition::Left => 0 - left,
                    SidebarPosition::Right => left + width,
                };
                best = match best {
                    Some((prev, qs, qe)) => if score > prev {
                        Some((score, ps, pe))
                    } else {
                        Some((prev, qs, qe))
                    },
                    None => Some((score, ps, pe)),
                };
            },
        }
        i = i + 1;
    }
    assert(ls.skip(i as int) =~= Seq::<Seq<char>>::empty());
    match best {
        Some((_, ps, pe)) => Some(string_of_range(&v, ps, pe)),
        None => None,
    }
}

// ───────────────────────────── the sidebar's width ─────────────────────────────

/// A setting that is a percentage.
pub open spec fn is_percent(setting: Seq<char>) -> bool {
    setting.len() > 0 && setting.last() == '%'
}

/// `s` without its trailing `%`s.
pub open spec fn trim_percent(s: Seq<char>) -> Seq<char>
    decreases s.len(),
{
    if s.len() > 0 && s.last() == '%' {
        trim_percent(s.drop_last())
    } else {
        s
    }
}

/// The width setting, `15%` when unset.
pub open spec fn width_setting(setting: Seq<char>) -> Seq<char> {
    if setting.len() == 0 {
        "15%"@
    } else {
        setting
    }
}

/// The percentage a setting names, 15 when it names none.
pub open spec fn percent_of(setting: Seq<char>) -> u32 {
    match parse_u32_spec(trim_percent(width_setting(setting))) {
        Some(p) => p,
        None => 15,
    }
}

/// The window width tmux reported, 0 when it reported none.
pub open spec fn window_cells(width: Seq<char>) -> u32 {
    match parse_u32_spec(width) {
        Some(w) => w,
        None => 0,
    }
}

/// Whether a percentage of the window can be taken in `u32` arithmetic.
pub open spec fn width_fits(setting: Seq<char>, window_width: Seq<char>) -> bool {
    window_cells(window_width) * percent_of(setting) <= u32::MAX
}

/// The sidebar width: a setting in cells as it is; a percentage of a known
/// window width in cells (at least 1); otherwise the setting as it is.
pub open spec fn sidebar_width_spec(setting: Seq<char>, window_width: Seq<char>) -> Seq<char> {
    let s = width_setting(setting);
    if !is_percent(s) {
        s
    } else {
        let w = window_cells(window_width);
        let p = percent_of(setting);
        if w > 0 && p > 0 {
            let cells = w * p / 100;
            crate::text::decimal(
                if cells >= 1 {
                    cells as nat
                } else {
                    1
                },
            )
        } else {
            s
        }
    }
}

/// The width to split the sidebar off with, from the width setting and the
/// window width tmux reports.
pub fn sidebar_width(setting: &str, window_width: &str) -> (r: String)
    requires
        width_fits(setting@, window_width@),
    ensures
        r@ == sidebar_width_spec(setting@, window_width@),
{
    proof {
        reveal_strlit("15%");
    }
    let s = if setting.unicode_len() == 0 {
        "15%".to_owned()
    } else {
        setting.to_owned()
    };
    let v = chars_of(s.as_str());
    if v.len() == 0 || v[v.len() - 1] != '%' {
        return s;
    }
    let mut e = v.len();
    assert(v@.subrange(0, v.len() as int) =~= v@);
    while e > 0 && v[e - 1] == '%'
        invariant
            e <= v.len(),
            trim_percent(v@) == trim_percent(v@.subrange(0, e as int)),
        decreases e,
    {
        assert(v@.subrange(0, e as int).drop_last() =~= v@.subrange(0, e - 1));
        e = e - 1;
    }
    assert(v@.subrange(0, v.len() as int) =~= v@);
    let wv = chars_of(window_width);
    assert(wv@.subrange(0, wv.len() as int) =~= wv@);
    let w: u32 = match parse_u32_in(&wv, 0, wv.len()) {
        Some(n) => n,
        None => 0,
    };
    let p: u32 = match parse_u32_in(&v, 0, e) {
        Some(n) => n,
        None => 15,
    };
    if w > 0 && p > 0 {
        let cells = w * p / 100;
        let cells = if cells >= 1 {
            cells
        } else {
            1
        };
        let mut out: Vec<char> = Vec::new();
        crate::text::push_decimal(&mut out, cells as u128);
        assert(out@ =~= crate::text::decimal(cells as nat));
        crate::text::string_of(&out)
    } else {
        s
    }
}

// ───────────────────────────── small tmux steps ─────────────────────────────

/// `display-message -d 2000 <message>`.
pub open spec fn flash_args(message: Seq<char>) -> Seq<Seq<char>> {
    seq!["display-message"@, "-d"@, "2000"@, message]
}

/// Flash a message in the status line for two seconds.
pub fn flash<R: TmuxRunner>(runner: &mut Tmux<R>, message: &str)
    ensures
        one_more_call(old(runner).calls(), final(runner).calls(), flash_args(message@)),
{
    let args = ["display-message", "-d", "2000", message];
    assert(argv(args@) =~= flash_args(message@));
    let _ = run_tmux(runner, &args);
}

/// `select-pane -t <pane>`.
pub open spec fn select_pane_args(pane: Seq<char>) -> Seq<Seq<char>> {
    seq!["select-pane"@, "-t"@, pane]
}

/// Focus `pane`; whether tmux accepted it.
pub fn select_pane<R: TmuxRunner>(runner: &mut Tmux<R>, pane: &str) -> (ok: bool)
    ensures
        one_more_call(old(runner).calls(), final(runner).calls(), select_pane_args(pane@)),
        ok == final(runner).calls().last().reply.is_some(),
{
    let args = ["select-pane", "-t", pane];
    assert(argv(args@) =~= select_pane_args(pane@));
    run_tmux(runner, &args).is_some()
}

/// The pane to return to when the sidebar lets go of the keyboard.
pub fn return_pane<R: TmuxRunner>(runner: &mut Tmux<R>, window_id: &str) -> (r: Option<String>)
    ensures
        one_more_call(
            old(runner).calls(),
            final(runner).calls(),
            display_args(window_id@, crate::tmux::option_format(RETURN_PANE@)),
        ),
        match final(runner).calls().last().reply {
            Some(out) => opt_string_view(r) == (if out.len() > 0 {
                Some(out)
            } else {
                None::<Seq<char>>
            }),
            None => r is None,
        },
{
    let mut f: Vec<char> = Vec::new();
    f.push('#');
    f.push('{');
    crate::text::extend_str(&mut f, RETURN_PANE);
    f.push('}');
    assert(f@ =~= crate::tmux::option_format(RETURN_PANE@));
    let format = crate::text::string_of(&f);
    let value = display_message(runner, window_id, format.as_str());
    if value.unicode_len() > 0 {
        Some(value)
    } else {
        None
    }
}

/// Remember where the human was before the sidebar took the keyboard.
pub fn set_return_pane<R: TmuxRunner>(runner: &mut Tmux<R>, window_id: &str, pane: &str)
    ensures
        one_more_call(
            old(runner).calls(),
            final(runner).calls(),
            crate::tmux::set_window_args(window_id@, RETURN_PANE@, pane@),
        ),
{
    crate::tmux::set_window_option(runner, window_id, RETURN_PANE, pane);
}

/// Forget where the human was.
pub fn clear_return_pane<R: TmuxRunner>(runner: &mut Tmux<R>, window_id: &str)
    ensures
        one_more_call(
            old(runner).calls(),
            final(runner).calls(),
            crate::tmux::unset_window_args(window_id@, RETURN_PANE@),
        ),
{
    crate::tmux::unset_window_option(runner, window_id, RETURN_PANE);
}

/// The first content pane a `list-panes` answer names beside `sidebar`.
pub open spec fn sibling_answer(call: TmuxCall, sidebar: Seq<char>) -> Option<Seq<char>> {
    match call.reply {
        Some(out) => crate::tmux::sibling_in(lines(out), sidebar),
        None => None,
    }
}

/// Whether the remembered pane is worth asking about: set, and not the
/// sidebar itself.
pub open spec fn probes_return(log: Seq<TmuxCall>, i: int, sidebar: Seq<char>) -> bool {
    reply_text(log[i]).len() > 0 && reply_text(log[i]) != sidebar
}

/// Whether the remembered pane is where the keyboard goes: worth asking
/// about, and tmux still knows it.
pub open spec fn returns_home(log: Seq<TmuxCall>, i: int, sidebar: Seq<char>) -> bool {
    probes_return(log, i, sidebar) && reply_text(log[i + 1]).len() > 0
}

/// Where the fallback `list-panes` stands when the remembered pane is of no
/// use.
pub open spec fn fallback_at(log: Seq<TmuxCall>, i: int, sidebar: Seq<char>) -> int {
    if probes_return(log, i, sidebar) {
        i + 2
    } else {
        i + 1
    }
}

/// `unfocus_sidebar`'s invocations, from `log[i]` on: the remembered pane,
/// whether it still exists when it is not the sidebar, the first content
/// pane when it is of no use, and the pane the keyboard goes to.
pub open spec fn unfocus_steps(window: Seq<char>, sidebar: Seq<char>, log: Seq<TmuxCall>, i: int) -> bool {
    let ret = reply_text(log[i]);
    let f = fallback_at(log, i, sidebar);
    &&& 0 <= i < log.len()
    &&& log[i].args == display_args(window, crate::tmux::option_format(RETURN_PANE@))
    &&& probes_return(log, i, sidebar) ==> i + 1 < log.len() && log[i + 1].args
        == crate::tmux::pane_id_args(ret)
    &&& if returns_home(log, i, sidebar) {
        i + 2 < log.len() && log[i + 2].args == select_pane_args(ret)
    } else {
        &&& f < log.len()
        &&& log[f].args == crate::tmux::list_panes_args(window)
        &&& sibling_answer(log[f], sidebar) matches Some(q) ==> f + 1 < log.len() && log[f + 1].args
            == select_pane_args(q)
    }
}

/// Where `unfocus_sidebar`'s invocations starting at `log[i]` end.
pub open spec fn unfocus_end(sidebar: Seq<char>, log: Seq<TmuxCall>, i: int) -> int {
    let f = fallback_at(log, i, sidebar);
    if returns_home(log, i, sidebar) {
        i + 3
    } else if sibling_answer(log[f], sidebar) is Some {
        f + 2
    } else {
        f + 1
    }
}

/// What `unfocus_sidebar` asked stays readable in a record that kept its
/// invocations.
pub proof fn lemma_unfocus_frame(window: Seq<char>, sidebar: Seq<char>, a: Seq<TmuxCall>, b: Seq<TmuxCall>, i: int)
    requires
        unfocus_steps(window, sidebar, a, i),
        unfocus_end(sidebar, a, i) <= a.len(),
        agree(a, b, unfocus_end(sidebar, a, i)),
    ensures
        unfocus_steps(window, sidebar, b, i),
        unfocus_end(sidebar, b, i) == unfocus_end(sidebar, a, i),
{
    assert(b[i] == a[i]);
    if probes_return(a, i, sidebar) {
        assert(b[i + 1] == a[i + 1]);
    }
    if returns_home(a, i, sidebar) {
        assert(b[i + 2] == a[i + 2]);
    } else {
        let f = fallback_at(a, i, sidebar);
        assert(b[f] == a[f]);
        if sibling_answer(a[f], sidebar) is Some {
            assert(b[f + 1] == a[f + 1]);
        }
    }
}

/// Give the keyboard back: to the remembered pane if it still exists and is
/// not the sidebar, else to the first content pane beside the sidebar.
pub fn unfocus_sidebar<R: TmuxRunner>(runner: &mut Tmux<R>, window_id: &str, sidebar_pane: &str)
    ensures
        extends(old(runner).calls(), final(runner).calls()),
        unfocus_steps(window_id@, sidebar_pane@, final(runner).calls(), old(runner).calls().len() as int),
        unfocus_end(sidebar_pane@, final(runner).calls(), old(runner).calls().len() as int)
            == final(runner).calls().len(),
{
    let ghost b = runner.calls();
    let ghost i = b.len() as int;
    let returned = return_pane(runner, window_id);
    let ghost c1 = runner.calls();
    proof {
        lemma_one_more_extends(b, c1, display_args(window_id@, crate::tmux::option_format(RETURN_PANE@)));
        assert(c1[i] == c1.last());
        assert(opt_string_view(returned) == (if reply_text(c1[i]).len() > 0 {
            Some(reply_text(c1[i]))
        } else {
            None::<Seq<char>>
        }));
        lemma_extends_refl(c1);
    }
    let mut target: Option<String> = None;
    if let Some(pane) = returned {
        let pv = chars_of(pane.as_str());
        let sv = chars_of(sidebar_pane);
        if !crate::text::seq_eq(&pv, &sv) {
            let ghost c2 = runner.calls();
            if pane_exists(runner, pane.as_str()) {
                target = Some(pane);
            }
            proof {
                lemma_one_more_extends(c2, runner.calls(), crate::tmux::pane_id_args(pv@));
                lemma_extends_trans(c1, c2, runner.calls());
                assert(runner.calls()[i + 1] == runner.calls().last());
            }
        }
    }
    let ghost c3 = runner.calls();
    proof {
        if c3 == c1 {
            lemma_extends_refl(c1);
        }
        lemma_extends_trans(b, c1, c3);
        lemma_extends_agree(c1, c3);
        assert(c3[i] == c1[i]);
        assert(c3.len() == fallback_at(c3, i, sidebar_pane@) || returns_home(c3, i, sidebar_pane@));
        assert(returns_home(c3, i, sidebar_pane@) == (target is Some));
        assert(target matches Some(t) ==> t@ == reply_text(c3[i]));
        lemma_extends_refl(c3);
    }
    if target.is_none() {
        target = crate::tmux::sibling_content_pane(runner, window_id, sidebar_pane);
        proof {
            lemma_one_more_extends(c3, runner.calls(), crate::tmux::list_panes_args(window_id@));
            assert(runner.calls()[c3.len() as int] == runner.calls().last());
            assert(opt_string_view(target) == sibling_answer(runner.calls().last(), sidebar_pane@));
        }
    }
    let ghost c4 = runner.calls();
    proof {
        lemma_extends_trans(b, c3, c4);
        lemma_extends_agree(c3, c4);
        assert(c4[i] == c3[i]);
        if probes_return(c3, i, sidebar_pane@) {
            assert(c4[i + 1] == c3[i + 1]);
        }
        lemma_extends_refl(c4);
    }
    if let Some(pane) = target {
        let _ = select_pane(runner, pane.as_str());
        proof {
            lemma_one_more_extends(c4, runner.calls(), select_pane_args(pane@));
            assert(runner.calls()[c4.len() as int] == runner.calls().last());
        }
    }
    proof {
        let z = runner.calls();
        lemma_extends_trans(b, c4, z);
        lemma_extends_agree(c4, z);
        assert(z[i] == c4[i]);
        if probes_return(c4, i, sidebar_pane@) {
            assert(z[i + 1] == c4[i + 1]);
        }
        if !returns_home(c4, i, sidebar_pane@) {
            let f = fallback_at(c4, i, sidebar_pane@);
            assert(z[f] == c4[f]);
        }
    }
}

/// `list-panes -t <window> -F <pane_id_role_format>`: the panes of a window
/// with their roles, empty when tmux failed.
fn list_roles<R: TmuxRunner>(runner: &mut Tmux<R>, window_id: &str) -> (r: Option<String>)
    ensures
        one_more_call(old(runner).calls(), final(runner).calls(), crate::tmux::list_panes_args(window_id@)),
        match final(runner).calls().last().reply {
            Some(out) => r matches Some(s) && s@ == out,
            None => r is None,
        },
{
    let format = crate::tmux::pane_id_role_format();
    let args = ["list-panes", "-t", window_id, "-F", format.as_str()];
    assert(argv(args@) =~= crate::tmux::list_panes_args(window_id@));
    run_tmux(runner, &args)
}

// ───────────────────────────── the commands ─────────────────────────────

/// `kill-window -t <window>`.
pub open spec fn kill_window_args(window: Seq<char>) -> Seq<Seq<char>> {
    seq!["kill-window"@, "-t"@, window]
}

/// `auto-close <window>` (the `pane-exited` hook): kill a window that has
/// nothing left in it but the sidebar. Always 0.
pub fn cmd_auto_close<R: TmuxRunner>(runner: &mut Tmux<R>, args: &[String]) -> (code: i32)
    ensures
        code == 0,
        args@.len() == 0 ==> final(runner).calls() == old(runner).calls(),
        args@.len() > 0 ==> ({
            let b = old(runner).calls();
            let a = final(runner).calls();
            let w = args@[0]@;
            &&& a.len() > b.len()
            &&& a.subrange(0, b.len() as int) == b
            &&& a[b.len() as int].args == crate::tmux::list_panes_args(w)
            &&& if a[b.len() as int].reply matches Some(out) && only_sidebar_spec(lines(out)) {
                a.len() == b.len() + 2 && a[b.len() as int + 1].args == kill_window_args(w)
            } else {
                a.len() == b.len() + 1
            }
        }),
{
    if args.len() == 0 {
        return 0;
    }
    let window_id = args[0].as_str();
    let ghost b = runner.calls();
    let roles = list_roles(runner, window_id);
    let ghost c1 = runner.calls();
    assert(c1.subrange(0, b.len() as int) =~= b);
    let roles = match roles {
        Some(r) => r,
        None => return 0,
    };
    if only_sidebar_remains(roles.as_str()) {
        let kill = ["kill-window", "-t", window_id];
        assert(argv(kill@) =~= kill_window_args(window_id@));
        let _ = run_tmux(runner, &kill);
        assert(runner.calls().subrange(0, b.len() as int) =~= b);
        assert(runner.calls()[b.len() as int] == c1[b.len() as int]);
    }
    0
}

/// `kill-pane -t <pane>`.
pub open spec fn kill_pane_args(pane: Seq<char>) -> Seq<Seq<char>> {
    seq!["kill-pane"@, "-t"@, pane]
}

/// `close`'s invocations once the sidebar `sidebar` was found to have the
/// keyboard, from `log[i]` on: the stranded swap put back, the remembered
/// pane read, the sidebar killed, the keyboard returned to the remembered
/// pane when tmux still knows it, the memory dropped and the news flashed.
pub open spec fn close_steps(window: Seq<char>, sidebar: Seq<char>, log: Seq<TmuxCall>, i: int) -> bool {
    let q = crate::preview::restore_end(window, log, i);
    let ret = reply_text(log[q]);
    let probe = ret.len() > 0 && ret != sidebar;
    let alive = probe && reply_text(log[q + 2]).len() > 0;
    let u = q + 2 + (if probe {
        1int
    } else {
        0int
    }) + (if alive {
        1int
    } else {
        0int
    });
    &&& 0 <= i <= log.len()
    &&& crate::preview::restore_steps(window, log, i)
    &&& log.len() == u + 2
    &&& log[q].args == display_args(window, crate::tmux::option_format(RETURN_PANE@))
    &&& log[q + 1].args == kill_pane_args(sidebar)
    &&& probe ==> log[q + 2].args == crate::tmux::pane_id_args(ret)
    &&& alive ==> log[q + 3].args == select_pane_args(ret)
    &&& log[u].args == crate::tmux::unset_window_args(window, RETURN_PANE@)
    &&& log[u + 1].args == flash_args("Nerve sidebar closed"@)
}

/// `close <window>` (`prefix + q`): close the sidebar when it has the
/// keyboard, putting any preview swap back first and returning the human to
/// the pane they were in; with the keyboard elsewhere, only say how. Always
/// 0.
pub fn cmd_close<R: TmuxRunner>(runner: &mut Tmux<R>, args: &[String]) -> (code: i32)
    ensures
        code == 0,
        extends(old(runner).calls(), final(runner).calls()),
        ({
            let b = old(runner).calls();
            let a = final(runner).calls();
            let i = b.len() as int;
            if args@.len() == 0 {
                a == b
            } else {
                let window = args@[0]@;
                &&& a.len() > i
                &&& a[i].args == crate::tmux::list_panes_args(window)
                &&& match first_sidebar(lines(reply_text(a[i]))) {
                    None => a.len() == i + 1,
                    Some(sidebar) => {
                        &&& a.len() > i + 2
                        &&& a[i + 1].args == display_args(window, "#{pane_id}"@)
                        &&& a[i + 2].args == display_args(
                            reply_text(a[i + 1]),
                            crate::tmux::option_format(PANE_ROLE@),
                        )
                        &&& if reply_text(a[i + 2]) == SIDEBAR_ROLE@ {
                            close_steps(window, sidebar, a, i + 3)
                        } else {
                            &&& a.len() == i + 4
                            &&& a[i + 3].args == flash_args(
                                "Nerve: focus sidebar (prefix+e), then prefix+q to close"@,
                            )
                        }
                    },
                }
            }
        }),
{
    let ghost b = runner.calls();
    let ghost k = b.len() as int;
    proof {
        lemma_extends_refl(b);
    }
    if args.len() == 0 {
        return 0;
    }
    let window_id = args[0].as_str();
    let panes = list_roles(runner, window_id);
    let ghost c1 = runner.calls();
    proof {
        lemma_one_more_extends(b, c1, crate::tmux::list_panes_args(window_id@));
        assert(c1[k] == c1.last());
    }
    let panes = match panes {
        Some(p) => p,
        None => String::new(),
    };
    let sidebar_pane = match find_sidebar(panes.as_str()) {
        Some(p) => p,
        None => return 0,
    };
    let current_pane = display_message(runner, window_id, "#{pane_id}");
    let ghost c2 = runner.calls();
    proof {
        lemma_one_more_extends(c1, c2, display_args(window_id@, "#{pane_id}"@));
        lemma_extends_trans(b, c1, c2);
        assert(c2[k] == c1[k]);
        assert(c2[k + 1] == c2.last());
    }
    let role_format = role_format();
    let current_role = display_message(runner, current_pane.as_str(), role_format.as_str());
    let ghost c3 = runner.calls();
    proof {
        lemma_one_more_extends(c2, c3, display_args(current_pane@, role_format@));
        lemma_extends_trans(b, c2, c3);
        lemma_extends_trans(c1, c2, c3);
        assert(c3[k] == c1[k]);
        assert(c3[k + 1] == c2[k + 1]);
        assert(c3[k + 2] == c3.last());
    }
    let role = chars_of(current_role.as_str());
    if !crate::text::vec_eq(&role, SIDEBAR_ROLE) {
        flash(runner, "Nerve: focus sidebar (prefix+e), then prefix+q to close");
        proof {
            let z = runner.calls();
            lemma_one_more_extends(c3, z, flash_args("Nerve: focus sidebar (prefix+e), then prefix+q to close"@));
            lemma_extends_trans(b, c3, z);
            assert(z[k] == c3[k]);
            assert(z[k + 1] == c3[k + 1]);
            assert(z[k + 2] == c3[k + 2]);
        }
        return 0;
    }
    crate::preview::restore_stranded_swap(runner, window_id);
    let ghost c4 = runner.calls();
    let ghost q = c4.len() as int;
    proof {
        lemma_extends_trans(b, c3, c4);
    }
    let returning = return_pane(runner, window_id);
    let ghost c5 = runner.calls();
    proof {
        lemma_one_more_extends(c4, c5, display_args(window_id@, crate::tmux::option_format(RETURN_PANE@)));
        lemma_extends_trans(b, c4, c5);
        assert(c5[q] == c5.last());
    }
    let kill = ["kill-pane", "-t", sidebar_pane.as_str()];
    let _ = run_tmux(runner, &kill);
    let ghost c6 = runner.calls();
    proof {
        assert(argv(kill@) =~= kill_pane_args(sidebar_pane@));
        lemma_one_more_extends(c5, c6, argv(kill@));
        lemma_extends_trans(b, c5, c6);
        lemma_extends_trans(c4, c5, c6);
        assert(c6[q] == c5[q]);
        assert(c6[q + 1] == c6.last());
        lemma_extends_refl(c6);
    }
    if let Some(pane) = returning {
        let pv = chars_of(pane.as_str());
        let sv = chars_of(sidebar_pane.as_str());
        if !crate::text::seq_eq(&pv, &sv) {
            let alive = pane_exists(runner, pane.as_str());
            let ghost c7 = runner.calls();
            proof {
                lemma_one_more_extends(c6, c7, crate::tmux::pane_id_args(pane@));
                assert(c7[q + 2] == c7.last());
                lemma_extends_refl(c7);
            }
            if alive {
                let _ = select_pane(runner, pane.as_str());
                proof {
                    lemma_one_more_extends(c7, runner.calls(), select_pane_args(pane@));
                    assert(runner.calls()[q + 3] == runner.calls().last());
                }
            }
            proof {
                lemma_extends_trans(c6, c7, runner.calls());
                lemma_extends_agree(c7, runner.calls());
                assert(runner.calls()[q + 2] == c7[q + 2]);
            }
        }
    }
    let ghost c9 = runner.calls();
    proof {
        if c9 == c6 {
            lemma_extends_refl(c6);
        }
        lemma_extends_trans(b, c6, c9);
        lemma_extends_agree(c6, c9);
        assert(c9[q] == c6[q]);
        assert(c9[q + 1] == c6[q + 1]);
    }
    clear_return_pane(runner, window_id);
    let ghost c10 = runner.calls();
    proof {
        lemma_one_more_extends(c9, c10, crate::tmux::unset_window_args(window_id@, RETURN_PANE@));
        lemma_extends_trans(b, c9, c10);
    }
    flash(runner, "Nerve sidebar closed");
    proof {
        let z = runner.calls();
        lemma_one_more_extends(c10, z, flash_args("Nerve sidebar closed"@));
        lemma_extends_trans(b, c10, z);
        lemma_extends_trans(c9, c10, z);
        lemma_extends_trans(c6, c9, z);
        lemma_extends_trans(c4, c6, z);
        lemma_extends_agree(c4, z);
        crate::preview::lemma_restore_frame(window_id@, c4, z, k + 3);
        lemma_extends_agree(c9, z);
        lemma_extends_trans(c3, c4, z);
        lemma_extends_agree(c3, z);
        assert(z[k] == c3[k]);
        assert(z[k + 1] == c3[k + 1]);
        assert(z[k + 2] == c3[k + 2]);
        assert(z[q] == c9[q]);
        assert(z[q + 1] == c9[q + 1]);
        if c9.len() > q + 2 {
            assert(z[q + 2] == c9[q + 2]);
        }
        if c9.len() > q + 3 {
            assert(z[q + 3] == c9[q + 3]);
        }
        assert(z[c9.len() as int] == c10.last());
    }
    0
}

/// `#{@nerve_pane_role}`.
fn role_format() -> (f: String)
    ensures
        f@ == crate::tmux::option_format(PANE_ROLE@),
{
    let mut f: Vec<char> = Vec::new();
    f.push('#');
    f.push('{');
    crate::text::extend_str(&mut f, PANE_ROLE);
    f.push('}');
    assert(f@ =~= crate::tmux::option_format(PANE_ROLE@));
    crate::text::string_of(&f)
}

/// Give the keyboard back from the sidebar pane itself (its `q` / `Esc`):
/// the same as `prefix + e` while the sidebar is focused. Nothing happens
/// outside tmux (no pane) or in a pane that is not the sidebar.
pub fn unfocus_from_sidebar<R: TmuxRunner>(runner: &mut Tmux<R>, sidebar_pane: &str)
    ensures
        extends(old(runner).calls(), final(runner).calls()),
        ({
            let b = old(runner).calls();
            let a = final(runner).calls();
            let i = b.len() as int;
            if sidebar_pane@.len() == 0 {
                a == b
            } else {
                &&& a.len() > i
                &&& a[i].args == display_args(sidebar_pane@, crate::tmux::option_format(PANE_ROLE@))
                &&& if reply_text(a[i]) == SIDEBAR_ROLE@ {
                    &&& a.len() > i + 1
                    &&& a[i + 1].args == display_args(sidebar_pane@, "#{window_id}"@)
                    &&& unfocus_steps(reply_text(a[i + 1]), sidebar_pane@, a, i + 2)
                    &&& unfocus_end(sidebar_pane@, a, i + 2) == a.len()
                } else {
                    a.len() == i + 1
                }
            }
        }),
{
    let ghost b = runner.calls();
    let ghost i = b.len() as int;
    proof {
        lemma_extends_refl(b);
    }
    if sidebar_pane.unicode_len() == 0 {
        return;
    }
    let format = role_format();
    let role = display_message(runner, sidebar_pane, format.as_str());
    let ghost c1 = runner.calls();
    proof {
        lemma_one_more_extends(b, c1, display_args(sidebar_pane@, format@));
        assert(c1[i] == c1.last());
    }
    let rv = chars_of(role.as_str());
    if !crate::text::vec_eq(&rv, SIDEBAR_ROLE) {
        return;
    }
    let window_id = display_message(runner, sidebar_pane, "#{window_id}");
    let ghost c2 = runner.calls();
    proof {
        lemma_one_more_extends(c1, c2, display_args(sidebar_pane@, "#{window_id}"@));
        lemma_extends_trans(b, c1, c2);
        lemma_extends_agree(c1, c2);
        assert(c2[i] == c1[i]);
        assert(c2[i + 1] == c2.last());
    }
    unfocus_sidebar(runner, window_id.as_str(), sidebar_pane);
    proof {
        let z = runner.calls();
        lemma_extends_trans(b, c2, z);
        lemma_extends_agree(c2, z);
        assert(z[i] == c2[i]);
        assert(z[i + 1] == c2[i + 1]);
    }
}

/// Whether the width setting is a percentage (or unset, so `15%`), which
/// takes the window's width to turn into cells.
pub open spec fn wants_window_width(setting: Seq<char>) -> bool {
    setting.len() == 0 || setting.last() == '%'
}

/// The width `resolve_width` settles on: a setting in cells as it is; a
/// percentage of the window when the arithmetic fits; otherwise the setting.
pub open spec fn resolved_width(setting: Seq<char>, window_width: Seq<char>) -> Seq<char> {
    if !wants_window_width(setting) {
        setting
    } else if width_fits(setting, window_width) {
        sidebar_width_spec(setting, window_width)
    } else {
        width_setting(setting)
    }
}

/// `resolve_width`'s invocations, from `log[i]` on: the width setting, then
/// the window's width when the setting is a percentage.
pub open spec fn width_steps(window: Seq<char>, log: Seq<TmuxCall>, i: int) -> bool {
    &&& 0 <= i < log.len()
    &&& log[i].args == display_args(window, crate::tmux::option_format(crate::tmux::SIDEBAR_WIDTH@))
    &&& wants_window_width(reply_text(log[i])) ==> i + 1 < log.len() && log[i + 1].args
        == display_args(window, "#{window_width}"@)
}

/// Where `resolve_width`'s invocations starting at `log[i]` end.
pub open spec fn width_end(log: Seq<TmuxCall>, i: int) -> int {
    if wants_window_width(reply_text(log[i])) {
        i + 2
    } else {
        i + 1
    }
}

/// The width those invocations settle on.
pub open spec fn width_answer(log: Seq<TmuxCall>, i: int) -> Seq<char> {
    resolved_width(reply_text(log[i]), reply_text(log[i + 1]))
}

/// What `resolve_width` asked and settled on stays readable in a record
/// that kept its invocations.
pub proof fn lemma_width_frame(window: Seq<char>, a: Seq<TmuxCall>, b: Seq<TmuxCall>, i: int)
    requires
        width_steps(window, a, i),
        width_end(a, i) <= a.len(),
        agree(a, b, width_end(a, i)),
    ensures
        width_steps(window, b, i),
        width_end(b, i) == width_end(a, i),
        width_answer(b, i) == width_answer(a, i),
{
    assert(b[i] == a[i]);
    if wants_window_width(reply_text(a[i])) {
        assert(b[i + 1] == a[i + 1]);
    }
}

/// The width to split the sidebar off with: the width setting (`15%` when
/// unset), a percentage taken of the window's width.
pub fn resolve_width<R: TmuxRunner>(runner: &mut Tmux<R>, window_id: &str) -> (r: String)
    ensures
        extends(old(runner).calls(), final(runner).calls()),
        width_steps(window_id@, final(runner).calls(), old(runner).calls().len() as int),
        width_end(final(runner).calls(), old(runner).calls().len() as int) == final(runner).calls().len(),
        r@ == width_answer(final(runner).calls(), old(runner).calls().len() as int),
{
    proof {
        reveal_strlit("15%");
    }
    let ghost b = runner.calls();
    let ghost i = b.len() as int;
    let mut f: Vec<char> = Vec::new();
    f.push('#');
    f.push('{');
    crate::text::extend_str(&mut f, crate::tmux::SIDEBAR_WIDTH);
    f.push('}');
    assert(f@ =~= crate::tmux::option_format(crate::tmux::SIDEBAR_WIDTH@));
    let format = crate::text::string_of(&f);
    let setting = display_message(runner, window_id, format.as_str());
    let ghost c1 = runner.calls();
    proof {
        lemma_one_more_extends(b, c1, display_args(window_id@, f@));
        assert(c1[i] == c1.last());
        assert(reply_text(c1[i]) == setting@);
    }
    let sv = chars_of(setting.as_str());
    let percent = sv.len() == 0 || sv[sv.len() - 1] == '%';
    if !percent {
        proof {
            assert(width_answer(c1, i) == setting@);
        }
        return setting;
    }
    let window_width = display_message(runner, window_id, "#{window_width}");
    proof {
        let c2 = runner.calls();
        lemma_one_more_extends(c1, c2, display_args(window_id@, "#{window_width}"@));
        lemma_extends_trans(b, c1, c2);
        assert(c2[i] == c1[i]);
        assert(c2[i + 1] == c2.last());
        assert(reply_text(c2[i + 1]) == window_width@);
    }
    if width_fits_exec(setting.as_str(), window_width.as_str()) {
        sidebar_width(setting.as_str(), window_width.as_str())
    } else if setting.unicode_len() == 0 {
        "15%".to_owned()
    } else {
        setting
    }
}

/// Whether [`sidebar_width`] can take the percentage in `u32` arithmetic.
fn width_fits_exec(setting: &str, window_width: &str) -> (b: bool)
    ensures
        b == width_fits(setting@, window_width@),
{
    proof {
        reveal_strlit("15%");
    }
    let s = if setting.unicode_len() == 0 {
        "15%".to_owned()
    } else {
        setting.to_owned()
    };
    let v = chars_of(s.as_str());
    let mut e = v.len();
    assert(v@.subrange(0, v.len() as int) =~= v@);
    while e > 0 && v[e - 1] == '%'
        invariant
            e <= v.len(),
            trim_percent(v@) == trim_percent(v@.subrange(0, e as int)),
        decreases e,
    {
        assert(v@.subrange(0, e as int).drop_last() =~= v@.subrange(0, e - 1));
        e = e - 1;
    }
    let wv = chars_of(window_width);
    assert(wv@.subrange(0, wv.len() as int) =~= wv@);
    let w: u64 = match parse_u32_in(&wv, 0, wv.len()) {
        Some(n) => n as u64,
        None => 0,
    };
    let p: u64 = match parse_u32_in(&v, 0, e) {
        Some(n) => n as u64,
        None => 15,
    };
    assert(w * p <= 0xffff_ffff_ffff_ffff) by (nonlinear_arith)
        requires
            w <= 0xffff_ffff,
            p <= 0xffff_ffff,
    ;
    w * p <= 0xffff_ffff
}

/// `list-panes -t <window> -F "#{pane_left} #{pane_width} #{pane_id}"`.
pub open spec fn geometry_args(window: Seq<char>) -> Seq<Seq<char>> {
    seq!["list-panes"@, "-t"@, window, "-F"@, "#{pane_left} #{pane_width} #{pane_id}"@]
}

/// The `split-window` flags for an edge.
pub open spec fn split_flags(position: SidebarPosition) -> Seq<char> {
    match position {
        SidebarPosition::Left => "-hfb"@,
        SidebarPosition::Right => "-hf"@,
    }
}

/// The pane to split: the one nearest the edge, or the window itself when
/// the geometry names none.
pub open spec fn split_target(window: Seq<char>, geometry: Seq<char>, position: SidebarPosition) -> Seq<char> {
    if geometry_fits(lines(geometry), position) {
        match target_spec(geometry, position) {
            Some(t) => t,
            None => window,
        }
    } else {
        window
    }
}

/// `split-window <flags> -l <width> -t <target> -c <path> -P -F #{pane_id} <bin>`.
pub open spec fn split_args(
    position: SidebarPosition,
    width: Seq<char>,
    target: Seq<char>,
    path: Seq<char>,
    bin: Seq<char>,
) -> Seq<Seq<char>> {
    seq![
        "split-window"@,
        split_flags(position),
        "-l"@,
        width,
        "-t"@,
        target,
        "-c"@,
        path,
        "-P"@,
        "-F"@,
        "#{pane_id}"@,
        bin,
    ]
}

/// The pane `split-window` printed, trimmed; empty when tmux refused.
pub open spec fn split_pane(call: TmuxCall) -> Seq<char> {
    match call.reply {
        Some(out) => crate::text::trim(out),
        None => Seq::<char>::empty(),
    }
}

/// `open_sidebar`'s invocations, from `log[i]` on: the width, the edge, the
/// panes' geometry, the split, and the role of the new pane when there is
/// one.
pub open spec fn open_steps(window: Seq<char>, path: Seq<char>, bin: Seq<char>, log: Seq<TmuxCall>, i: int) -> bool {
    let k = width_end(log, i);
    let position = position_spec(reply_text(log[k]));
    &&& width_steps(window, log, i)
    &&& k + 2 < log.len()
    &&& log[k].args == display_args(window, crate::tmux::option_format(crate::tmux::SIDEBAR_POSITION@))
    &&& log[k + 1].args == geometry_args(window)
    &&& log[k + 2].args == split_args(
        position,
        width_answer(log, i),
        split_target(window, reply_text(log[k + 1]), position),
        path,
        bin,
    )
    &&& split_pane(log[k + 2]).len() > 0 ==> k + 3 < log.len() && log[k + 3].args == crate::tmux::set_pane_args(
        split_pane(log[k + 2]),
        PANE_ROLE@,
        SIDEBAR_ROLE@,
    )
}

/// The pane those invocations opened; empty when none.
pub open spec fn opened(log: Seq<TmuxCall>, i: int) -> Seq<char> {
    split_pane(log[width_end(log, i) + 2])
}

/// Where `open_sidebar`'s invocations starting at `log[i]` end.
pub open spec fn open_end(log: Seq<TmuxCall>, i: int) -> int {
    width_end(log, i) + if opened(log, i).len() > 0 {
        4int
    } else {
        3int
    }
}

/// What `open_sidebar` asked and opened stays readable in a record that
/// kept its invocations.
pub proof fn lemma_open_frame(
    window: Seq<char>,
    path: Seq<char>,
    bin: Seq<char>,
    a: Seq<TmuxCall>,
    b: Seq<TmuxCall>,
    i: int,
)
    requires
        open_steps(window, path, bin, a, i),
        open_end(a, i) <= a.len(),
        agree(a, b, open_end(a, i)),
    ensures
        open_steps(window, path, bin, b, i),
        open_end(b, i) == open_end(a, i),
        opened(b, i) == opened(a, i),
{
    let k = width_end(a, i);
    lemma_agree_shorter(a, b, open_end(a, i), k);
    lemma_width_frame(window, a, b, i);
    assert(b[k] == a[k]);
    assert(b[k + 1] == a[k + 1]);
    assert(b[k + 2] == a[k + 2]);
    if opened(a, i).len() > 0 {
        assert(b[k + 3] == a[k + 3]);
    }
}

/// Split the sidebar off the pane nearest the configured edge, running
/// `self_bin`, and mark it with the sidebar role; the new pane's id, or empty
/// when tmux refused.
pub fn open_sidebar<R: TmuxRunner>(runner: &mut Tmux<R>, window_id: &str, pane_path: &str, self_bin: &str) -> (pane: String)
    ensures
        extends(old(runner).calls(), final(runner).calls()),
        open_steps(window_id@, pane_path@, self_bin@, final(runner).calls(), old(runner).calls().len() as int),
        open_end(final(runner).calls(), old(runner).calls().len() as int) == final(runner).calls().len(),
        pane@ == opened(final(runner).calls(), old(runner).calls().len() as int),
{
    let ghost b = runner.calls();
    let ghost i = b.len() as int;
    let width = resolve_width(runner, window_id);
    let ghost c1 = runner.calls();
    let ghost k = c1.len() as int;
    let mut f: Vec<char> = Vec::new();
    f.push('#');
    f.push('{');
    crate::text::extend_str(&mut f, crate::tmux::SIDEBAR_POSITION);
    f.push('}');
    assert(f@ =~= crate::tmux::option_format(crate::tmux::SIDEBAR_POSITION@));
    let format = crate::text::string_of(&f);
    let raw_position = display_message(runner, window_id, format.as_str());
    let ghost c2 = runner.calls();
    proof {
        lemma_one_more_extends(c1, c2, display_args(window_id@, f@));
        lemma_extends_trans(b, c1, c2);
        assert(c2[k] == c2.last());
    }
    let position = SidebarPosition::from_setting(raw_position.as_str());
    let geometry_query = ["list-panes", "-t", window_id, "-F", "#{pane_left} #{pane_width} #{pane_id}"];
    let geometry = match run_tmux(runner, &geometry_query) {
        Some(g) => g,
        None => String::new(),
    };
    let ghost c3 = runner.calls();
    proof {
        assert(argv(geometry_query@) =~= geometry_args(window_id@));
        lemma_one_more_extends(c2, c3, argv(geometry_query@));
        lemma_extends_trans(b, c2, c3);
        assert(c3[k + 1] == c3.last());
        assert(reply_text(c3[k + 1]) == geometry@);
    }
    let target = if geometry_fits_exec(geometry.as_str(), position) {
        match target_pane_for_position(geometry.as_str(), position) {
            Some(t) => t,
            None => window_id.to_owned(),
        }
    } else {
        window_id.to_owned()
    };
    let split = [
        "split-window",
        split_window_flags(position),
        "-l",
        width.as_str(),
        "-t",
        target.as_str(),
        "-c",
        pane_path,
        "-P",
        "-F",
        "#{pane_id}",
        self_bin,
    ];
    let created = run_tmux(runner, &split);
    let ghost c4 = runner.calls();
    proof {
        assert(argv(split@) =~= split_args(position, width@, target@, pane_path@, self_bin@));
        lemma_one_more_extends(c3, c4, argv(split@));
        lemma_extends_trans(b, c3, c4);
        assert(c4[k + 2] == c4.last());
    }
    let pane = match created {
        Some(out) => crate::text::trim_str(out.as_str()).to_owned(),
        None => String::new(),
    };
    proof {
        assert(pane@ == split_pane(c4[k + 2]));
        lemma_one_more_extends(c1, c2, display_args(window_id@, f@));
        lemma_one_more_extends(c2, c3, argv(geometry_query@));
        lemma_one_more_extends(c3, c4, argv(split@));
        lemma_extends_trans(c1, c2, c3);
        lemma_extends_trans(c1, c3, c4);
        lemma_extends_refl(c4);
    }
    if pane.unicode_len() > 0 {
        crate::tmux::set_pane_option(runner, pane.as_str(), PANE_ROLE, SIDEBAR_ROLE);
        proof {
            lemma_one_more_extends(c4, runner.calls(), crate::tmux::set_pane_args(pane@, PANE_ROLE@, SIDEBAR_ROLE@));
            lemma_extends_trans(b, c4, runner.calls());
        }
    }
    proof {
        let z = runner.calls();
        lemma_extends_trans(c1, c4, z);
        lemma_extends_agree(c1, z);
        lemma_width_frame(window_id@, c1, z, i);
        lemma_extends_agree(c4, z);
        assert(z[k] == c4[k]);
        assert(c4[k] == c3[k]);
        assert(c3[k] == c2[k]);
        assert(z[k + 1] == c4[k + 1]);
        assert(c4[k + 1] == c3[k + 1]);
        assert(z[k + 2] == c4[k + 2]);
    }
    pane
}

/// `open_sidebar_in`'s invocations, from `log[i]` on: the pane the human is
/// in, the opening, and, once a sidebar opened, where the way back leads
/// and who gets the keyboard.
pub open spec fn open_in_steps(
    window: Seq<char>,
    path: Seq<char>,
    focus: bool,
    bin: Seq<char>,
    log: Seq<TmuxCall>,
    i: int,
) -> bool {
    let prior = reply_text(log[i]);
    let m = open_end(log, i + 1);
    let sidebar = opened(log, i + 1);
    let remember = prior.len() > 0 && prior != sidebar;
    let n = if remember {
        m + 1
    } else {
        m
    };
    &&& 0 <= i < log.len()
    &&& log[i].args == display_args(window, "#{pane_id}"@)
    &&& open_steps(window, path, bin, log, i + 1)
    &&& open_end(log, i + 1) <= log.len()
    &&& sidebar.len() > 0 ==> {
        &&& remember ==> m < log.len() && log[m].args == crate::tmux::set_window_args(
            window,
            RETURN_PANE@,
            prior,
        )
        &&& if focus {
            &&& n + 1 < log.len()
            &&& log[n].args == select_pane_args(sidebar)
            &&& log[n + 1].args == flash_args("Nerve sidebar — focused (prefix+q closes)"@)
        } else if prior.len() > 0 {
            &&& n + 1 < log.len()
            &&& log[n].args == select_pane_args(prior)
            &&& log[n + 1].args == flash_args("Nerve sidebar open — prefix+e focus, prefix+q close"@)
        } else {
            &&& n < log.len()
            &&& log[n].args == flash_args("Nerve sidebar open — prefix+e focus, prefix+q close"@)
        }
    }
}

/// Where `open_sidebar_in`'s invocations starting at `log[i]` end.
pub open spec fn open_in_end(focus: bool, log: Seq<TmuxCall>, i: int) -> int {
    let prior = reply_text(log[i]);
    let m = open_end(log, i + 1);
    let sidebar = opened(log, i + 1);
    if sidebar.len() == 0 {
        m
    } else {
        let n = if prior.len() > 0 && prior != sidebar {
            m + 1
        } else {
            m
        };
        if focus || prior.len() > 0 {
            n + 2
        } else {
            n + 1
        }
    }
}

/// Open the sidebar, and decide who keeps the keyboard: `prefix + e` is a
/// person asking for the sidebar, so it lands there; auto-create leaves the
/// human where they were typing. Either way the pane they were in is
/// remembered for the way back.
pub fn open_sidebar_in<R: TmuxRunner>(runner: &mut Tmux<R>, window_id: &str, pane_path: &str, focus: bool, self_bin: &str)
    ensures
        extends(old(runner).calls(), final(runner).calls()),
        open_in_steps(window_id@, pane_path@, focus, self_bin@, final(runner).calls(), old(runner).calls().len() as int),
        open_in_end(focus, final(runner).calls(), old(runner).calls().len() as int) == final(runner).calls().len(),
{
    let ghost b = runner.calls();
    let ghost i = b.len() as int;
    let prior = display_message(runner, window_id, "#{pane_id}");
    let ghost c1 = runner.calls();
    proof {
        lemma_one_more_extends(b, c1, display_args(window_id@, "#{pane_id}"@));
        assert(c1[i] == c1.last());
    }
    let sidebar = open_sidebar(runner, window_id, pane_path, self_bin);
    let ghost c2 = runner.calls();
    proof {
        lemma_extends_trans(b, c1, c2);
        lemma_extends_agree(c1, c2);
        assert(c2[i] == c1[i]);
    }
    if sidebar.unicode_len() == 0 {
        return;
    }
    let pv = chars_of(prior.as_str());
    let sv = chars_of(sidebar.as_str());
    let ghost m = c2.len() as int;
    proof {
        lemma_extends_refl(c2);
    }
    if pv.len() > 0 && !crate::text::seq_eq(&pv, &sv) {
        set_return_pane(runner, window_id, prior.as_str());
        proof {
            lemma_one_more_extends(c2, runner.calls(), crate::tmux::set_window_args(window_id@, RETURN_PANE@, prior@));
            assert(runner.calls()[m] == runner.calls().last());
        }
    }
    let ghost c3 = runner.calls();
    let ghost n = c3.len() as int;
    proof {
        lemma_extends_trans(b, c2, c3);
    }
    if focus {
        let _ = select_pane(runner, sidebar.as_str());
        let ghost c4 = runner.calls();
        flash(runner, "Nerve sidebar — focused (prefix+q closes)");
        proof {
            let z = runner.calls();
            lemma_one_more_extends(c3, c4, select_pane_args(sidebar@));
            lemma_one_more_extends(c4, z, flash_args("Nerve sidebar — focused (prefix+q closes)"@));
            lemma_extends_trans(c3, c4, z);
            lemma_extends_trans(b, c3, z);
            lemma_extends_trans(c2, c3, z);
            lemma_extends_agree(c2, z);
            lemma_open_frame(window_id@, pane_path@, self_bin@, c2, z, i + 1);
            lemma_extends_agree(c3, z);
            assert(z[i] == c2[i]);
            assert(z[n] == c4[n]);
            assert(c4[n] == c4.last());
        }
        return;
    }
    if pv.len() > 0 {
        let _ = select_pane(runner, prior.as_str());
        proof {
            lemma_one_more_extends(c3, runner.calls(), select_pane_args(prior@));
            assert(runner.calls()[n] == runner.calls().last());
        }
    }
    let ghost c5 = runner.calls();
    proof {
        if c5 == c3 {
            lemma_extends_refl(c3);
        }
        lemma_extends_trans(b, c3, c5);
    }
    flash(runner, "Nerve sidebar open — prefix+e focus, prefix+q close");
    proof {
        let z = runner.calls();
        lemma_one_more_extends(c5, z, flash_args("Nerve sidebar open — prefix+e focus, prefix+q close"@));
        lemma_extends_trans(b, c5, z);
        lemma_extends_trans(c3, c5, z);
        lemma_extends_trans(c2, c3, z);
        lemma_extends_agree(c2, z);
        lemma_open_frame(window_id@, pane_path@, self_bin@, c2, z, i + 1);
        lemma_extends_agree(c3, z);
        lemma_extends_agree(c5, z);
        assert(z[i] == c2[i]);
        assert(z.last() == z[c5.len() as int]);
    }
}

/// Whether an argument is the auto-create switch.
pub open spec fn is_create_only(arg: Seq<char>) -> bool {
    arg == "--create-only"@
}

/// The positional arguments of `toggle`, in order.
pub open spec fn positional_args(args: Seq<Seq<char>>) -> Seq<Seq<char>>
    decreases args.len(),
{
    if args.len() == 0 {
        seq![]
    } else if is_create_only(args.last()) {
        positional_args(args.drop_last())
    } else {
        positional_args(args.drop_last()).push(args.last())
    }
}

pub open spec fn string_views(args: Seq<String>) -> Seq<Seq<char>> {
    args.map_values(|a: String| a@)
}

/// Whether `toggle` was told to open only (the auto-create hook).
pub open spec fn has_create_only(args: Seq<Seq<char>>) -> bool
    decreases args.len(),
{
    if args.len() == 0 {
        false
    } else {
        has_create_only(args.drop_last()) || is_create_only(args.last())
    }
}

/// `toggle <window> [<path>] [--create-only]` (`prefix + e`, and the
/// auto-create hook): open the sidebar when the window has none (taking the
/// keyboard unless only asked to open it); otherwise, unless only asked to
/// open it, give the keyboard back when the sidebar has it and hand it to
/// the sidebar when it does not. Always 0.
pub fn cmd_toggle<R: TmuxRunner>(runner: &mut Tmux<R>, args: &[String], self_bin: &str) -> (code: i32)
    ensures
        code == 0,
        extends(old(runner).calls(), final(runner).calls()),
        ({
            let b = old(runner).calls();
            let a = final(runner).calls();
            let i = b.len() as int;
            let pos = positional_args(string_views(args@));
            let create_only = has_create_only(string_views(args@));
            if pos.len() == 0 {
                a == b
            } else {
                let window = pos[0];
                let path = if pos.len() > 1 {
                    pos[1]
                } else {
                    "~"@
                };
                &&& a.len() > i
                &&& a[i].args == crate::tmux::list_panes_args(window)
                &&& match first_sidebar(lines(reply_text(a[i]))) {
                    Some(sidebar) => if create_only {
                        a.len() == i + 1
                    } else {
                        &&& a.len() > i + 2
                        &&& a[i + 1].args == display_args(window, "#{pane_id}"@)
                        &&& a[i + 2].args == display_args(
                            reply_text(a[i + 1]),
                            crate::tmux::option_format(PANE_ROLE@),
                        )
                        &&& if reply_text(a[i + 2]) == SIDEBAR_ROLE@ {
                            &&& unfocus_steps(window, sidebar, a, i + 3)
                            &&& unfocus_end(sidebar, a, i + 3) + 1 == a.len()
                            &&& a.last().args == flash_args("Nerve sidebar — unfocused (prefix+e to focus)"@)
                        } else {
                            &&& a.len() == i + 5
                            &&& a[i + 3].args == select_pane_args(sidebar)
                            &&& a[i + 4].args == flash_args("Nerve sidebar — focused"@)
                        }
                    },
                    None => {
                        &&& open_in_steps(window, path, !create_only, self_bin@, a, i + 1)
                        &&& open_in_end(!create_only, a, i + 1) == a.len()
                    },
                }
            }
        }),
{
    let ghost b = runner.calls();
    let ghost k = b.len() as int;
    proof {
        lemma_extends_refl(b);
    }
    let ghost views = string_views(args@);
    let mut create_only = false;
    let mut positional: Vec<&str> = Vec::new();
    let mut i: usize = 0;
    while i < args.len()
        invariant
            i <= args.len(),
            views == string_views(args@),
            crate::machine::str_views(positional@) == positional_args(views.take(i as int)),
            create_only == has_create_only(views.take(i as int)),
        decreases args.len() - i,
    {
        let arg = chars_of(args[i].as_str());
        assert(views.take(i + 1).drop_last() =~= views.take(i as int));
        assert(views.take(i + 1).last() == args@[i as int]@);
        let ghost before = positional@;
        if crate::text::vec_eq(&arg, "--create-only") {
            create_only = true;
        } else {
            positional.push(args[i].as_str());
            assert(crate::machine::str_views(positional@) =~= crate::machine::str_views(before).push(args@[i as int]@));
        }
        i = i + 1;
    }
    assert(views.take(args.len() as int) =~= views);
    if positional.len() == 0 {
        return 0;
    }
    let window_id = positional[0];
    let pane_path = if positional.len() > 1 {
        positional[1]
    } else {
        "~"
    };
    proof {
        assert(window_id@ == positional_args(views)[0]);
    }
    let panes = list_roles(runner, window_id);
    let ghost c1 = runner.calls();
    proof {
        lemma_one_more_extends(b, c1, crate::tmux::list_panes_args(window_id@));
        assert(c1[k] == c1.last());
    }
    let panes = match panes {
        Some(p) => p,
        None => String::new(),
    };
    proof {
        assert(panes@ == reply_text(c1[k]));
    }
    if let Some(sidebar_pane) = find_sidebar(panes.as_str()) {
        if create_only {
            return 0;
        }
        let current_pane = display_message(runner, window_id, "#{pane_id}");
        let ghost c2 = runner.calls();
        proof {
            lemma_one_more_extends(c1, c2, display_args(window_id@, "#{pane_id}"@));
            lemma_extends_trans(b, c1, c2);
            assert(c2[k + 1] == c2.last());
        }
        let format = role_format();
        let current_role = display_message(runner, current_pane.as_str(), format.as_str());
        let ghost c3 = runner.calls();
        proof {
            lemma_one_more_extends(c2, c3, display_args(current_pane@, format@));
            lemma_extends_trans(b, c2, c3);
            lemma_extends_trans(c1, c2, c3);
            assert(c3[k + 2] == c3.last());
        }
        let role = chars_of(current_role.as_str());
        if crate::text::vec_eq(&role, SIDEBAR_ROLE) {
            unfocus_sidebar(runner, window_id, sidebar_pane.as_str());
            let ghost c4 = runner.calls();
            flash(runner, "Nerve sidebar — unfocused (prefix+e to focus)");
            proof {
                let z = runner.calls();
                lemma_one_more_extends(c4, z, flash_args("Nerve sidebar — unfocused (prefix+e to focus)"@));
                lemma_extends_trans(c3, c4, z);
                lemma_extends_trans(b, c3, z);
                lemma_extends_agree(c4, z);
                lemma_unfocus_frame(window_id@, sidebar_pane@, c4, z, k + 3);
                lemma_extends_agree(c3, z);
                lemma_extends_trans(c1, c3, z);
                lemma_extends_agree(c1, z);
                assert(z[k] == c1[k]);
                assert(z[k + 1] == c3[k + 1]);
                assert(c3[k + 1] == c2[k + 1]);
                assert(z[k + 2] == c3[k + 2]);
            }
        } else {
            let _ = select_pane(runner, sidebar_pane.as_str());
            let ghost c4 = runner.calls();
            flash(runner, "Nerve sidebar — focused");
            proof {
                let z = runner.calls();
                lemma_one_more_extends(c3, c4, select_pane_args(sidebar_pane@));
                lemma_one_more_extends(c4, z, flash_args("Nerve sidebar — focused"@));
                lemma_extends_trans(c3, c4, z);
                lemma_extends_trans(b, c3, z);
                lemma_extends_agree(c3, z);
                lemma_extends_trans(c1, c3, z);
                lemma_extends_agree(c1, z);
                assert(z[k] == c1[k]);
                assert(z[k + 1] == c3[k + 1]);
                assert(c3[k + 1] == c2[k + 1]);
                assert(z[k + 2] == c3[k + 2]);
                assert(z[k + 3] == c4[k + 3]);
            }
        }
        return 0;
    }
    open_sidebar_in(runner, window_id, pane_path, !create_only, self_bin);
    proof {
        let z = runner.calls();
        lemma_extends_trans(b, c1, z);
        lemma_extends_agree(c1, z);
        assert(z[k] == c1[k]);
    }
    0
}

} // verus!
