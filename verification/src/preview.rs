//! Mirror the selected job's tmux pane into the sibling content pane, and
//! jump to it.
//!
//! Uses `swap-pane -d` so the sidebar keeps focus while the pane beside it
//! shows the agent terminal for the selected job. Which pane a job belongs to
//! is [`crate::panes`]; this module is what the sidebar does with that
//! answer: swap it in, put it back, land the human on it.
use vstd::prelude::*;

use crate::machine::{opt_string_view, opt_view};
use crate::text::{chars_of, trim, trim_range};
use crate::tmux::{
    agree, lemma_extends_agree, reply_text, argv, display_args, display_message, extends, lemma_extends_refl, lemma_extends_trans, lemma_one_more_extends,
    one_more_call, pane_exists, pane_id_args, run_tmux, unset_pane_args, unset_pane_option,
    unset_window_args, unset_window_option, window_option, TmuxCall, Tmux, TmuxRunner, PREVIEW_OWNER,
    PREVIEW_SWAP,
};

verus! {

/// Outcome of a jump to a job.
#[derive(Clone, Copy, Debug, PartialEq, Eq, Structural)]
pub enum JumpResult {
    /// Focus moved to a tmux pane.
    TmuxPane,
    /// The job's `openURL` is an IDE deep link: suspend the TUI before
    /// handing the URL to the OS opener.
    NeedsIde,
    /// No tmux pane and no IDE deep link, or the switch failed.
    Failed,
}

// ───────────────────────────── swap records ─────────────────────────────

/// What [`parse_swap_record`] answers: `"%33 %19"` is the pane that was
/// swapped in and the slot it landed in; a record naming one pane twice
/// would be a no-op at best and is refused.
pub open spec fn swap_record_spec(record: Seq<char>) -> Option<(Seq<char>, Seq<char>)> {
    let t = trim(record);
    match crate::procs::first_ws(t) {
        None => None,
        Some(i) => {
            let foreign = trim(t.take(i as int));
            let slot = trim(t.skip(i as int + 1));
            if foreign.len() > 0 && slot.len() > 0 && foreign != slot {
                Some((foreign, slot))
            } else {
                None
            }
        },
    }
}

pub open spec fn pair_view(p: Option<(&str, &str)>) -> Option<(Seq<char>, Seq<char>)> {
    match p {
        Some((a, b)) => Some((a@, b@)),
        None => None,
    }
}

/// `"%33 %19"` → the pane that was swapped in, and the slot it landed in.
pub fn parse_swap_record(record: &str) -> (r: Option<(&str, &str)>)
    ensures
        pair_view(r) == swap_record_spec(record@),
{
    let v = chars_of(record);
    let (a, b) = trim_range(&v, 0, v.len());
    assert(v@.subrange(0, v.len() as int) =~= v@);
    let ghost t = v@.subrange(a as int, b as int);
    let i = crate::procs::find_ws(&v, a, b);
    if i == b {
        return None;
    }
    assert(t.take(i - a) =~= v@.subrange(a as int, i as int));
    assert(t.skip(i - a + 1) =~= v@.subrange(i + 1, b as int));
    let (fs, fe) = trim_range(&v, a, i);
    let (ss, se) = trim_range(&v, i + 1, b);
    if fs == fe || ss == se {
        return None;
    }
    let same = crate::text::seq_eq(
        &crate::text::sub_vec(&v, fs, fe),
        &crate::text::sub_vec(&v, ss, se),
    );
    if same {
        return None;
    }
    Some((record.substring_char(fs, fe), record.substring_char(ss, se)))
}

/// A text without whitespace is its own trim.
proof fn lemma_trim_without_ws(t: Seq<char>)
    requires
        t.len() > 0 ==> !crate::text::is_ws(t[0]),
        t.len() > 0 ==> !crate::text::is_ws(t.last()),
    ensures
        trim(t) == t,
{
    crate::text::lemma_skip_sep_run(t, false, 0, 0);
    assert(t.skip(0) =~= t);
    crate::text::lemma_trim_end_run(t, false, t.len() as int, t.len() as int);
    assert(t.take(t.len() as int) =~= t);
}

/// The first whitespace of `t` is the first position holding one.
proof fn lemma_first_ws_at(t: Seq<char>, k: int)
    requires
        0 <= k < t.len(),
        crate::text::is_ws(t[k]),
        forall|m: int| 0 <= m < k ==> !crate::text::is_ws(#[trigger] t[m]),
    ensures
        crate::procs::first_ws(t) == Some(k as nat),
    decreases k,
{
    if k > 0 {
        let rest = t.drop_first();
        assert forall|m: int| 0 <= m < k - 1 implies !crate::text::is_ws(#[trigger] rest[m]) by {
            assert(rest[m] == t[m + 1]);
        }
        lemma_first_ws_at(rest, k - 1);
    }
}

/// The record [`PanePreview::show`] writes for a swap is read back by
/// [`restore_stranded_swap`] as the same two panes: a sidebar that dies
/// with a pane swapped in leaves what the next one needs to undo it.
pub proof fn lemma_swap_record_round_trip(foreign: Seq<char>, slot: Seq<char>)
    requires
        foreign.len() > 0,
        slot.len() > 0,
        foreign != slot,
        forall|m: int| 0 <= m < foreign.len() ==> !crate::text::is_ws(#[trigger] foreign[m]),
        forall|m: int| 0 <= m < slot.len() ==> !crate::text::is_ws(#[trigger] slot[m]),
    ensures
        swap_record_spec(foreign + seq![' '] + slot) == Some((foreign, slot)),
{
    let r = foreign + seq![' '] + slot;
    let k = foreign.len() as int;
    assert(r[0] == foreign[0]);
    assert(r[r.len() - 1] == slot[slot.len() - 1]);
    lemma_trim_without_ws(r);
    assert(r[k] == ' ');
    assert forall|m: int| 0 <= m < k implies !crate::text::is_ws(#[trigger] r[m]) by {
        assert(r[m] == foreign[m]);
    }
    lemma_first_ws_at(r, k);
    assert(r.take(k) =~= foreign);
    assert(r.skip(k + 1) =~= slot);
    lemma_trim_without_ws(foreign);
    lemma_trim_without_ws(slot);
}

/// `swap-pane -d -s <source> -t <target>`.
pub open spec fn swap_args(source: Seq<char>, target: Seq<char>) -> Seq<Seq<char>> {
    seq!["swap-pane"@, "-d"@, "-s"@, source, "-t"@, target]
}

/// The value a window option read answered, when it holds one.
pub open spec fn option_answer(call: TmuxCall) -> Option<Seq<char>> {
    match call.reply {
        Some(out) => crate::tmux::option_value(out),
        None => None,
    }
}

/// The swap recorded in the option read at `log[i]`, when it names one.
pub open spec fn swap_found(log: Seq<TmuxCall>, i: int) -> Option<(Seq<char>, Seq<char>)> {
    match option_answer(log[i]) {
        Some(record) => swap_record_spec(record),
        None => None,
    }
}

/// Whether tmux still knew the pane that was swapped in.
pub open spec fn foreign_alive(log: Seq<TmuxCall>, i: int) -> bool {
    reply_text(log[i + 1]).len() > 0
}

/// Whether tmux still knew both panes of the swap.
pub open spec fn both_alive(log: Seq<TmuxCall>, i: int) -> bool {
    foreign_alive(log, i) && reply_text(log[i + 2]).len() > 0
}

/// Where the owner claim is dropped, after the checks and the swap back.
pub open spec fn owner_at(log: Seq<TmuxCall>, i: int) -> int {
    i + 2 + (if foreign_alive(log, i) {
        1int
    } else {
        0int
    }) + (if both_alive(log, i) {
        1int
    } else {
        0int
    })
}

/// `restore_stranded_swap`'s invocations, from `log[i]` on: the record;
/// when it names a swap, whether both panes still exist, the swap back when
/// they do, and the owner claim dropped; and the record dropped whenever
/// there was one.
pub open spec fn restore_steps(window: Seq<char>, log: Seq<TmuxCall>, i: int) -> bool {
    window.len() == 0 || {
        &&& 0 <= i < log.len()
        &&& log[i].args == display_args(window, crate::tmux::option_format(PREVIEW_SWAP@))
        &&& option_answer(log[i]) is Some ==> match swap_found(log, i) {
            None => i + 1 < log.len() && log[i + 1].args == unset_window_args(window, PREVIEW_SWAP@),
            Some((foreign, slot)) => {
                let o = owner_at(log, i);
                &&& o + 1 < log.len()
                &&& log[i + 1].args == pane_id_args(foreign)
                &&& foreign_alive(log, i) ==> log[i + 2].args == pane_id_args(slot)
                &&& both_alive(log, i) ==> log[i + 3].args == swap_args(foreign, slot)
                &&& log[o].args == unset_pane_args(foreign, PREVIEW_OWNER@)
                &&& log[o + 1].args == unset_window_args(window, PREVIEW_SWAP@)
            },
        }
    }
}

/// Where `restore_stranded_swap`'s invocations starting at `log[i]` end.
pub open spec fn restore_end(window: Seq<char>, log: Seq<TmuxCall>, i: int) -> int {
    if window.len() == 0 {
        i
    } else if option_answer(log[i]) is None {
        i + 1
    } else if swap_found(log, i) is None {
        i + 2
    } else {
        owner_at(log, i) + 2
    }
}

/// What `restore_stranded_swap` asked stays readable in a record that kept
/// its invocations.
pub proof fn lemma_restore_frame(window: Seq<char>, a: Seq<TmuxCall>, b: Seq<TmuxCall>, i: int)
    requires
        restore_steps(window, a, i),
        0 <= i <= a.len(),
        restore_end(window, a, i) <= a.len(),
        agree(a, b, restore_end(window, a, i)),
    ensures
        restore_steps(window, b, i),
        restore_end(window, b, i) == restore_end(window, a, i),
{
    if window.len() > 0 {
        assert(b[i] == a[i]);
        if option_answer(a[i]) is Some {
            assert(b[i + 1] == a[i + 1]);
            if swap_found(a, i) is Some {
                if foreign_alive(a, i) {
                    assert(b[i + 2] == a[i + 2]);
                }
                if both_alive(a, i) {
                    assert(b[i + 3] == a[i + 3]);
                }
                let o = owner_at(a, i);
                assert(b[o] == a[o]);
                assert(b[o + 1] == a[o + 1]);
            }
        }
    }
}

/// Put back a preview swap that outlived the sidebar that made it.
///
/// Reads the window's [`PREVIEW_SWAP`] record, so it works from any process:
/// the next sidebar to start, or `close` on its way to `kill-pane`. The swap
/// is undone only when both panes still exist; the owner claim on the
/// foreign pane and the record itself are dropped either way.
pub fn restore_stranded_swap<R: TmuxRunner>(runner: &mut Tmux<R>, window: &str)
    ensures
        extends(old(runner).calls(), final(runner).calls()),
        window@.len() == 0 ==> final(runner).calls() == old(runner).calls(),
        restore_steps(window@, final(runner).calls(), old(runner).calls().len() as int),
        restore_end(window@, final(runner).calls(), old(runner).calls().len() as int) == final(runner).calls().len(),
{
    let ghost b = runner.calls();
    let ghost i = b.len() as int;
    if window.unicode_len() == 0 {
        proof {
            assert(b.subrange(0, b.len() as int) =~= b);
        }
        return;
    }
    let record = window_option(runner, window, PREVIEW_SWAP);
    let ghost c1 = runner.calls();
    proof {
        lemma_one_more_extends(
            b,
            c1,
            display_args(window@, crate::tmux::option_format(PREVIEW_SWAP@)),
        );
        assert(c1[i] == c1.last());
        assert(crate::machine::opt_string_view(record) == option_answer(c1[i]));
    }
    let record = match record {
        Some(r) => r,
        None => return,
    };
    proof {
        lemma_extends_refl(c1);
    }
    match parse_swap_record(record.as_str()) {
        Some((foreign, slot)) => {
            let first = pane_exists(runner, foreign);
            let ghost c5 = runner.calls();
            proof {
                lemma_one_more_extends(c1, c5, pane_id_args(foreign@));
                assert(c5[i + 1] == c5.last());
                assert(first == foreign_alive(c5, i));
            }
            let there = if first {
                let second = pane_exists(runner, slot);
                proof {
                    lemma_one_more_extends(c5, runner.calls(), pane_id_args(slot@));
                    lemma_extends_trans(c1, c5, runner.calls());
                    assert(runner.calls()[i + 2] == runner.calls().last());
                }
                second
            } else {
                proof {
                    lemma_extends_refl(c5);
                }
                false
            };
            let ghost c6 = runner.calls();
            proof {
                lemma_extends_agree(c5, c6);
                assert(c6[i + 1] == c5[i + 1]);
                assert(there == both_alive(c6, i));
                lemma_extends_refl(c6);
            }
            if there {
                let args = ["swap-pane", "-d", "-s", foreign, "-t", slot];
                let _ = run_tmux(runner, &args);
                proof {
                    assert(argv(args@) =~= swap_args(foreign@, slot@));
                    lemma_one_more_extends(c6, runner.calls(), argv(args@));
                    assert(runner.calls()[i + 3] == runner.calls().last());
                }
            }
            let ghost c3 = runner.calls();
            proof {
                lemma_extends_trans(c5, c6, c3);
                lemma_extends_trans(c1, c5, c3);
                lemma_extends_agree(c6, c3);
                assert(c3[i + 1] == c6[i + 1]);
                if foreign_alive(c6, i) {
                    assert(c3[i + 2] == c6[i + 2]);
                }
                assert(c3.len() == owner_at(c3, i));
            }
            unset_pane_option(runner, foreign, PREVIEW_OWNER);
            proof {
                lemma_one_more_extends(c3, runner.calls(), unset_pane_args(foreign@, PREVIEW_OWNER@));
                lemma_extends_trans(c1, c3, runner.calls());
            }
        },
        None => {},
    }
    let ghost c4 = runner.calls();
    unset_window_option(runner, window, PREVIEW_SWAP);
    proof {
        let z = runner.calls();
        lemma_one_more_extends(c4, z, unset_window_args(window@, PREVIEW_SWAP@));
        lemma_extends_trans(c1, c4, z);
        lemma_extends_trans(b, c1, z);
        lemma_extends_agree(c4, z);
        lemma_extends_agree(c1, z);
        assert(z[i] == c1[i]);
        if swap_found(c1, i) is Some {
            assert(z[i + 1] == c4[i + 1]);
            if foreign_alive(c4, i) {
                assert(z[i + 2] == c4[i + 2]);
            }
            if both_alive(c4, i) {
                assert(z[i + 3] == c4[i + 3]);
            }
            assert(z[owner_at(c4, i)] == c4[owner_at(c4, i)]);
        }
    }
}

// ───────────────────────────── landing on a pane ─────────────────────────────

pub open spec fn switch_client_args(pane: Seq<char>) -> Seq<Seq<char>> {
    seq!["switch-client"@, "-t"@, pane]
}

/// Land the human on `pane`: switch the client to it, select its window, and
/// select it; whether tmux accepted the last step.
pub fn switch_to_pane<R: TmuxRunner>(runner: &mut Tmux<R>, pane: &str) -> (ok: bool)
    ensures
        extends(old(runner).calls(), final(runner).calls()),
        final(runner).calls().len() >= old(runner).calls().len() + 2,
        final(runner).calls()[old(runner).calls().len() as int].args == switch_client_args(pane@),
        final(runner).calls().last().args == crate::cli::toggle::select_pane_args(pane@),
        ok == final(runner).calls().last().reply.is_some(),
{
    let ghost b = runner.calls();
    let switch = ["switch-client", "-t", pane];
    assert(argv(switch@) =~= switch_client_args(pane@));
    let _ = run_tmux(runner, &switch);
    let ghost c1 = runner.calls();
    proof {
        lemma_one_more_extends(b, c1, switch_client_args(pane@));
    }
    let window = display_message(runner, pane, "#{window_id}");
    let ghost c2 = runner.calls();
    proof {
        lemma_one_more_extends(c1, c2, display_args(pane@, "#{window_id}"@));
        lemma_extends_trans(b, c1, c2);
    }
    if window.unicode_len() > 0 {
        let select = ["select-window", "-t", window.as_str()];
        let _ = run_tmux(runner, &select);
        proof {
            lemma_one_more_extends(c2, runner.calls(), argv(select@));
            lemma_extends_trans(b, c2, runner.calls());
        }
    }
    let ghost c3 = runner.calls();
    let ok = crate::cli::toggle::select_pane(runner, pane);
    proof {
        lemma_one_more_extends(c3, runner.calls(), crate::cli::toggle::select_pane_args(pane@));
        lemma_extends_trans(b, c3, runner.calls());
        let a = runner.calls();
        assert(a.subrange(0, c1.len() as int)[b.len() as int] == a[b.len() as int]);
    }
    ok
}

/// Whether a job's `openURL` is an IDE deep link the OS should open.
pub open spec fn has_ide_link(job: crate::frame::JobView) -> bool {
    match job.location {
        Some(location) => match location.open_url {
            Some(url) => crate::state::ide_deep_link_spec(url@),
            None => false,
        },
        None => false,
    }
}

pub fn job_has_ide_link(job: &crate::frame::JobView) -> (b: bool)
    ensures
        b == has_ide_link(*job),
{
    match &job.location {
        Some(location) => match &location.open_url {
            Some(url) => crate::state::is_ide_deep_link(url.as_str()),
            None => false,
        },
        None => false,
    }
}

// ───────────────────────────── the preview ─────────────────────────────

/// How long a sidebar in a background window waits before asking again
/// whether it is on screen, in milliseconds.
pub const HIDDEN_RECHECK_MS: u64 = 1000;

/// How often the sidebar asks which pane the human is standing in, in
/// milliseconds.
pub const FOCUS_POLL_MS: u64 = 400;

/// What the preview last acted on: a job, as it looked when it was matched.
/// The pid is part of the key because it is what the match is made of.
#[derive(Clone, Debug, PartialEq, Eq)]
pub struct PreviewKey {
    pub id: String,
    pub pid: Option<u32>,
}

pub open spec fn key_view(k: Option<PreviewKey>) -> Option<(Seq<char>, Option<u32>)> {
    match k {
        Some(key) => Some((key.id@, key.pid)),
        None => None,
    }
}

/// The key a job is shown under.
pub open spec fn key_of(job: crate::frame::JobView) -> (Seq<char>, Option<u32>) {
    (job.id@, job.extensions.pid)
}

fn key_exec(job: &crate::frame::JobView) -> (k: PreviewKey)
    ensures
        key_view(Some(k)) == Some(key_of(*job)),
{
    PreviewKey { id: job.id.clone(), pid: job.extensions.pid }
}

/// Where the pane for a job is, and what to say when there is none: the
/// lookups a preview needs that read the process table, the filesystem and
/// the ssh config.
pub trait JobPanes {
    /// The pane this machine's job `job` runs on.
    fn local_pane(&mut self, job: &crate::frame::JobView) -> Option<String>;

    /// The ssh pane that reaches the machine `alias`.
    fn ssh_route(&mut self, alias: &str) -> Option<crate::panes::SshRoute>;

    /// Ask the tmux on `destination` to turn to the window of process `pid`.
    fn request_remote(&mut self, destination: &str, pid: u32);

    /// This machine's alias, if it has one.
    fn local_alias(&mut self) -> Option<String>;
}

/// The pane and tty a `#{pane_id}\t#{pane_tty}` answer names; none without a
/// tab, or with nothing before it.
pub open spec fn focus_answer(out: Seq<char>) -> Option<(Seq<char>, Seq<char>)> {
    match crate::text::find_char(out, '\t') {
        Some(t) => if t > 0 {
            Some((out.take(t as int), out.skip(t as int + 1)))
        } else {
            None
        },
        None => None,
    }
}

/// The tty of the pane a focus answer `out` names, when it is news: a pane
/// other than `seen`, the one last seen, and other than the sidebar itself.
pub open spec fn newly_focused(seen: Option<Seq<char>>, sidebar: Seq<char>, out: Seq<char>) -> Option<Seq<char>> {
    match focus_answer(out) {
        None => None,
        Some((pane, tty)) => if seen == Some(pane) || pane == sidebar {
            None
        } else {
            Some(tty)
        },
    }
}

/// Looking for the slot, from `log[j]` on, when `known` is the slot last
/// used: a known slot is checked, and looked up again beside the sidebar
/// only when tmux no longer knows it; an unknown one is looked up.
pub open spec fn slot_steps(known: Option<Seq<char>>, window: Seq<char>, log: Seq<TmuxCall>, j: int) -> bool {
    &&& 0 <= j < log.len()
    &&& match known {
        Some(s) => {
            &&& log[j].args == pane_id_args(s)
            &&& reply_text(log[j]).len() == 0 ==> j + 1 < log.len() && log[j + 1].args
                == crate::tmux::list_panes_args(window)
        },
        None => log[j].args == crate::tmux::list_panes_args(window),
    }
}

/// Whether the slot last used turned out to be gone.
pub open spec fn slot_lost(known: Option<Seq<char>>, log: Seq<TmuxCall>, j: int) -> bool {
    known is Some && reply_text(log[j]).len() == 0
}

/// Where looking for the slot ends.
pub open spec fn slot_end(known: Option<Seq<char>>, log: Seq<TmuxCall>, j: int) -> int {
    if slot_lost(known, log, j) {
        j + 2
    } else {
        j + 1
    }
}

/// The slot found: the one last used while it lives, else the first content
/// pane beside the sidebar.
pub open spec fn slot_found(known: Option<Seq<char>>, sidebar: Seq<char>, log: Seq<TmuxCall>, j: int) -> Option<Seq<char>> {
    if known is Some && !slot_lost(known, log, j) {
        known
    } else {
        crate::cli::toggle::sibling_answer(log[slot_end(known, log, j) - 1], sidebar)
    }
}

/// What finding the pane a job shows on asks of the lookups, from `l[l1]`
/// on: this machine's alias; then, for a job of this machine, its pane; for
/// a job on another machine, the ssh route to that machine, and, when there
/// is one and the job has a process, the far side is asked to turn to it.
pub open spec fn pane_lookups(job: crate::frame::JobView, l: Seq<Lookup>, l1: int) -> bool {
    &&& l1 + 1 < l.len()
    &&& l[l1] matches Lookup::LocalAlias { answer: local }
    &&& match crate::machine::foreign_alias_spec(job.alias@, local) {
        None => {
            &&& l.len() == l1 + 2
            &&& l[l1 + 1] matches Lookup::LocalPane { job: id, .. }
            &&& id == job.id@
        },
        Some(alias) => {
            &&& l[l1 + 1] matches Lookup::SshRoute { alias: asked, route }
            &&& asked == alias
            &&& if route is Some && job.extensions.pid is Some {
                &&& l.len() == l1 + 3
                &&& l[l1 + 2] == (Lookup::Requested {
                    destination: route.unwrap().destination,
                    pid: job.extensions.pid.unwrap(),
                })
            } else {
                l.len() == l1 + 2
            }
        },
    }
}

/// The alias this machine answered at `l[l1]`.
pub open spec fn alias_answer(l: Seq<Lookup>, l1: int) -> Option<Seq<char>> {
    match l[l1] {
        Lookup::LocalAlias { answer } => answer,
        _ => None,
    }
}

/// The pane the lookups at `l[l1 + 1]` found: the job's own pane, or the
/// ssh pane of the route to its machine.
pub open spec fn found_pane(l: Seq<Lookup>, l1: int) -> Option<Seq<char>> {
    match l[l1 + 1] {
        Lookup::LocalPane { answer, .. } => answer,
        Lookup::SshRoute { route, .. } => route_pane(route),
        _ => None,
    }
}

/// What `show` asks once it has the slot `slot` and has put any earlier
/// swap back, of the lookups from `l[l1]` on and of tmux from `log[m]` on,
/// and what is swapped in after. The pane the job shows on is looked up;
/// with none, a message says why; when it is the slot, nothing more;
/// otherwise the pane's window is asked, and, for a pane outside the
/// sidebar's window, the pane is swapped into the slot, with its record and
/// claim once tmux accepted it.
pub open spec fn landing(
    job: crate::frame::JobView,
    window: Seq<char>,
    sidebar: Seq<char>,
    slot: Seq<char>,
    l: Seq<Lookup>,
    l1: int,
    log: Seq<TmuxCall>,
    m: int,
    swapped: Option<Seq<char>>,
) -> bool {
    &&& pane_lookups(job, l, l1)
    &&& match found_pane(l, l1) {
        None => {
            &&& log.len() == m + 1
            &&& swapped is None
            &&& log[m].args == seq![
                "display-message"@,
                "-d"@,
                "2000"@,
                "Nerve: "@ + nothing_to_show_spec(job, alias_answer(l, l1)),
            ]
        },
        Some(pane) => if pane == slot {
            log.len() == m && swapped is None
        } else {
            &&& m < log.len()
            &&& log[m].args == display_args(pane, "#{window_id}"@)
            &&& if reply_text(log[m]) == window {
                log.len() == m + 1 && swapped is None
            } else {
                &&& m + 1 < log.len()
                &&& log[m + 1].args == swap_args(pane, slot)
                &&& if log[m + 1].reply is Some {
                    &&& log.len() == m + 4
                    &&& log[m + 2].args == crate::tmux::set_window_args(window, PREVIEW_SWAP@, pane + seq![' '] + slot)
                    &&& log[m + 3].args == crate::tmux::set_pane_args(pane, PREVIEW_OWNER@, sidebar)
                    &&& swapped == Some(pane)
                } else {
                    log.len() == m + 2 && swapped is None
                }
            }
        },
    }
}

/// What `show` asks of tmux and leaves behind, from `before` to `after`:
/// nothing for a job already shown, for a sidebar that is no pane, or while
/// the window was seen off screen less than a recheck ago; else whether
/// the window is on screen, and, when it is, the slot, the earlier swap put
/// back and the landing of the job, which is then what is shown.
pub open spec fn show_steps<R: TmuxRunner>(
    before: PanePreview<R>,
    after: PanePreview<R>,
    job: crate::frame::JobView,
    now_ms: u64,
) -> bool {
    let b = before.calls();
    let a = after.calls();
    let i = b.len() as int;
    if before.shown() == Some(key_of(job)) || before.sidebar_id().len() == 0 || before.hidden_at(now_ms) {
        &&& a == b
        &&& after.lookups() == before.lookups()
        &&& after.shown() == before.shown()
        &&& after.swapped() == before.swapped()
        &&& after.slot_pane() == before.slot_pane()
        &&& after.hidden_until() == before.hidden_until()
    } else {
        let visible = reply_text(a[i]) == "1"@;
        &&& i < a.len()
        &&& a[i].args == display_args(before.sidebar_id(), "#{window_active}"@)
        &&& after.hidden_until() == if visible {
            None
        } else {
            Some(now_ms.saturating_add(HIDDEN_RECHECK_MS))
        }
        &&& if !visible {
            &&& a.len() == i + 1
            &&& after.lookups() == before.lookups()
            &&& after.shown() == before.shown()
            &&& after.swapped() == before.swapped()
            &&& after.slot_pane() == before.slot_pane()
        } else {
            let known = before.slot_pane();
            let j = i + 1;
            let k = slot_end(known, a, j);
            let found = slot_found(known, before.sidebar_id(), a, j);
            let kept = if slot_lost(known, a, j) {
                None
            } else {
                before.swapped()
            };
            &&& slot_steps(known, before.window(), a, j)
            &&& after.slot_pane() == found
            &&& match found {
                None => a.len() == k && after.lookups() == before.lookups() && after.shown() == before.shown()
                    && after.swapped() == kept,
                Some(s) => {
                    let m = if kept is Some {
                        k + 3
                    } else {
                        k
                    };
                    &&& after.shown() == Some(key_of(job))
                    &&& kept matches Some(f) ==> before.unswap_steps(a, k, f, s)
                    &&& before.lookups().len() <= after.lookups().len()
                    &&& after.lookups().subrange(0, before.lookups().len() as int) == before.lookups()
                    &&& landing(
                        job,
                        before.window(),
                        before.sidebar_id(),
                        s,
                        after.lookups(),
                        before.lookups().len() as int,
                        a,
                        m,
                        after.swapped(),
                    )
                },
            }
        }
    }
}

/// Where a jump's own invocations start: after the swap it puts back.
pub open spec fn settled_at<R: TmuxRunner>(before: PanePreview<R>) -> int {
    before.calls().len() + if before.swapped() is Some && before.slot_pane() is Some {
        3int
    } else {
        0int
    }
}

/// How a jump that started from `before` ended, read from the invocations
/// `log` it left: on a pane when tmux knew the pane it looked up and took
/// the final `select-pane`; failed when it knew the pane but refused to
/// land there; otherwise to the IDE for a job with an IDE link, and failed
/// for any other.
pub open spec fn jump_outcome<R: TmuxRunner>(before: PanePreview<R>, job: crate::frame::JobView, log: Seq<TmuxCall>) -> JumpResult {
    let u = settled_at(before);
    if u < log.len() && log[u].args == pane_id_args(log[u].args[3]) && reply_text(log[u]).len() > 0 {
        if log.last().args == crate::cli::toggle::select_pane_args(log[u].args[3]) && log.last().reply is Some {
            JumpResult::TmuxPane
        } else {
            JumpResult::Failed
        }
    } else if has_ide_link(job) {
        JumpResult::NeedsIde
    } else {
        JumpResult::Failed
    }
}

/// The switch to pane `p` that follows its answered pane-id query at
/// `log[u]`: the client is switched to it and, later in the same switch,
/// it is selected; that `select-pane` is the last invocation when tmux took
/// it, and is followed only by the message saying it could not switch when
/// tmux refused it.
pub open spec fn switched_to(p: Seq<char>, log: Seq<TmuxCall>, u: int) -> bool {
    &&& u + 1 < log.len()
    &&& log[u + 1].args == switch_client_args(p)
    &&& exists|w: int|
        u + 1 < w < log.len() && #[trigger] log[w].args == crate::cli::toggle::select_pane_args(p) && if log[w].reply is Some {
            w == log.len() - 1
        } else {
            w == log.len() - 2 && log.last().args[0] == "display-message"@
        }
}

/// The pane a jump tried, read from the invocations `log` from `u` on: the
/// pane-id query for it comes first, and once tmux knows the pane the jump
/// switches to it; with no pane to try, nothing is queried, at most a
/// message is shown.
pub open spec fn tried(target: Option<Seq<char>>, log: Seq<TmuxCall>, u: int) -> bool {
    match target {
        Some(p) => {
            &&& u < log.len()
            &&& log[u].args == pane_id_args(p)
            &&& reply_text(log[u]).len() > 0 ==> switched_to(p, log, u)
        },
        None => log.len() == u || (u < log.len() && log[u].args.len() == 4 && log[u].args[1] == "-d"@),
    }
}

/// The pane of a route, if there is one.
pub open spec fn route_pane(route: Option<crate::panes::RouteView>) -> Option<Seq<char>> {
    match route {
        Some(rt) => Some(rt.pane),
        None => None,
    }
}

/// A local job's jump, from `l[l1]` on: `local_pane` is asked about the job,
/// and the pane tried is its answer, or failing that the pane swapped into
/// the slot.
pub open spec fn local_lookups(
    job: crate::frame::JobView,
    swapped: Option<Seq<char>>,
    l: Seq<Lookup>,
    l1: int,
    log: Seq<TmuxCall>,
    u: int,
) -> bool {
    &&& l.len() == l1 + 1
    &&& l[l1] matches Lookup::LocalPane { job: id, answer: found }
    &&& id == job.id@
    &&& tried(if found is Some { found } else { swapped }, log, u)
}

/// A remote job's jump, from `l[l1]` on: the route to its machine `alias`
/// is asked for, its pane is tried, and once the jump landed the far side
/// is asked to turn to the job's process, when the job has one.
pub open spec fn remote_lookups(
    job: crate::frame::JobView,
    alias: Seq<char>,
    l: Seq<Lookup>,
    l1: int,
    log: Seq<TmuxCall>,
    u: int,
    landed: bool,
) -> bool {
    &&& l1 < l.len()
    &&& l[l1] matches Lookup::SshRoute { alias: asked, route }
    &&& asked == alias
    &&& tried(route_pane(route), log, u)
    &&& if landed && route is Some && job.extensions.pid is Some {
        &&& l.len() == l1 + 2
        &&& l[l1 + 1] == (Lookup::Requested {
            destination: route.unwrap().destination,
            pid: job.extensions.pid.unwrap(),
        })
    } else {
        l.len() == l1 + 1
    }
}

/// What a jump asks the lookups, from `l[l0]` on: this machine's alias,
/// then the local or the remote path by whether the job's machine is
/// another.
pub open spec fn jump_lookups(
    job: crate::frame::JobView,
    swapped: Option<Seq<char>>,
    l: Seq<Lookup>,
    l0: int,
    log: Seq<TmuxCall>,
    u: int,
    landed: bool,
) -> bool {
    &&& l0 < l.len()
    &&& l[l0] matches Lookup::LocalAlias { answer: local }
    &&& match crate::machine::foreign_alias_spec(job.alias@, local) {
        None => local_lookups(job, swapped, l, l0 + 1, log, u),
        Some(alias) => remote_lookups(job, alias, l, l0 + 1, log, u, landed),
    }
}

/// One question asked of the [`JobPanes`] lookups, and its answer.
pub enum Lookup {
    /// `local_alias`.
    LocalAlias { answer: Option<Seq<char>> },
    /// `local_pane` for the job with id `job`.
    LocalPane { job: Seq<char>, answer: Option<Seq<char>> },
    /// `ssh_route` for the machine `alias`.
    SshRoute { alias: Seq<char>, route: Option<crate::panes::RouteView> },
    /// `request_remote`, asking `destination` to turn to process `pid`.
    Requested { destination: Seq<char>, pid: u32 },
}

/// Tracks which foreign pane was swapped into the preview slot.
pub struct PanePreview<R: TmuxRunner> {
    runner: Tmux<R>,
    sidebar: crate::panes::SidebarPane,
    preview_slot: Option<String>,
    swapped_with: Option<String>,
    last_shown: Option<PreviewKey>,
    /// When to ask again whether this window is back on screen.
    hidden_until: Option<u64>,
    /// Pane the human was last seen standing in, and when that was asked.
    focused_pane: Option<String>,
    focus_checked: Option<u64>,
    /// Every question asked of the lookups, oldest first.
    looked: Ghost<Seq<Lookup>>,
}

impl<R: TmuxRunner> PanePreview<R> {
    /// Every question asked of the [`JobPanes`] lookups so far, oldest
    /// first, with its answer.
    pub closed spec fn lookups(&self) -> Seq<Lookup> {
        self.looked@
    }

    /// The key of what is shown, if anything.
    pub closed spec fn shown(&self) -> Option<(Seq<char>, Option<u32>)> {
        key_view(self.last_shown)
    }

    /// Every tmux invocation made so far.
    pub closed spec fn calls(&self) -> Seq<TmuxCall> {
        self.runner.calls()
    }

    /// The sidebar pane this preview belongs to.
    pub closed spec fn sidebar_id(&self) -> Seq<char> {
        self.sidebar.id@
    }

    /// The pane swapped into the slot, if any.
    pub closed spec fn swapped(&self) -> Option<Seq<char>> {
        crate::machine::opt_string_view(self.swapped_with)
    }

    /// The pane beside the sidebar that previews paint into, once found.
    pub closed spec fn slot_pane(&self) -> Option<Seq<char>> {
        crate::machine::opt_string_view(self.preview_slot)
    }

    /// The window the sidebar lives in.
    pub closed spec fn window(&self) -> Seq<char> {
        self.sidebar.window@
    }

    /// The pane the human was last seen standing in.
    pub closed spec fn focus_seen(&self) -> Option<Seq<char>> {
        crate::machine::opt_string_view(self.focused_pane)
    }

    /// When the focused pane was last asked for, in milliseconds.
    pub closed spec fn focus_asked(&self) -> Option<u64> {
        self.focus_checked
    }

    /// Until when this window counts as off screen without asking again.
    pub closed spec fn hidden_until(&self) -> Option<u64> {
        self.hidden_until
    }

    /// Whether the window was seen off screen less than a recheck ago.
    pub open spec fn hidden_at(&self, now_ms: u64) -> bool {
        self.hidden_until() matches Some(until) && now_ms < until
    }

    /// Everything but the record of invocations, the on-screen memory and
    /// the record of lookups is as in `other`.
    pub open spec fn same_but_screen_and_lookups(&self, other: &Self) -> bool {
        &&& self.shown() == other.shown()
        &&& self.swapped() == other.swapped()
        &&& self.sidebar_id() == other.sidebar_id()
        &&& self.window() == other.window()
        &&& self.slot_pane() == other.slot_pane()
        &&& self.focus_seen() == other.focus_seen()
        &&& self.focus_asked() == other.focus_asked()
    }

    /// Everything but the record of invocations and the on-screen memory is
    /// as in `other`.
    pub open spec fn same_but_screen(&self, other: &Self) -> bool {
        &&& self.shown() == other.shown()
        &&& self.swapped() == other.swapped()
        &&& self.sidebar_id() == other.sidebar_id()
        &&& self.window() == other.window()
        &&& self.slot_pane() == other.slot_pane()
        &&& self.focus_seen() == other.focus_seen()
        &&& self.focus_asked() == other.focus_asked()
        &&& self.lookups() == other.lookups()
    }

    /// Whether a look at the focused pane at `now_ms` comes too soon after
    /// the last one.
    pub open spec fn focus_throttled(&self, now_ms: u64) -> bool {
        self.focus_asked() matches Some(at) && now_ms >= at && now_ms - at < FOCUS_POLL_MS
    }

    /// The invocations that put the swap of `foreign` into `slot` back:
    /// the same exchange again, then the owner claim and the window's record
    /// dropped.
    pub open spec fn unswap_steps(&self, log: Seq<TmuxCall>, i: int, foreign: Seq<char>, slot: Seq<char>) -> bool {
        &&& 0 <= i
        &&& i + 2 < log.len()
        &&& log[i].args == swap_args(foreign, slot)
        &&& log[i + 1].args == unset_pane_args(foreign, PREVIEW_OWNER@)
        &&& log[i + 2].args == unset_window_args(self.window(), PREVIEW_SWAP@)
    }

    /// What putting the slot back asks of tmux: the unswap when a pane is
    /// swapped into a known slot, nothing otherwise.
    pub open spec fn unswapped(&self, after: Seq<TmuxCall>) -> bool {
        match (self.swapped(), self.slot_pane()) {
            (Some(foreign), Some(slot)) => {
                &&& after.len() == self.calls().len() + 3
                &&& self.unswap_steps(after, self.calls().len() as int, foreign, slot)
            },
            _ => after == self.calls(),
        }
    }

    /// A preview for the sidebar `sidebar`. A sidebar that was killed rather
    /// than closed left its swap in place; that is undone before this one
    /// starts moving panes of its own.
    pub fn new(runner: Tmux<R>, sidebar: crate::panes::SidebarPane) -> (p: Self)
        ensures
            p.lookups() == Seq::<Lookup>::empty(),
            p.shown().is_none(),
            p.swapped().is_none(),
            p.sidebar_id() == sidebar.id@,
            p.window() == sidebar.window@,
            p.slot_pane().is_none(),
            extends(runner.calls(), p.calls()),
            restore_steps(sidebar.window@, p.calls(), runner.calls().len() as int),
            restore_end(sidebar.window@, p.calls(), runner.calls().len() as int) == p.calls().len(),
    {
        let mut runner = runner;
        restore_stranded_swap(&mut runner, sidebar.window.as_str());
        PanePreview {
            runner,
            sidebar,
            preview_slot: None,
            swapped_with: None,
            last_shown: None,
            hidden_until: None,
            focused_pane: None,
            focus_checked: None,
            looked: Ghost(Seq::empty()),
        }
    }

    /// A preview bound to no pane: it matches nothing and moves nothing.
    pub fn detached(runner: Tmux<R>) -> (p: Self)
        ensures
            p.lookups() == Seq::<Lookup>::empty(),
            p.shown().is_none(),
            p.swapped().is_none(),
            p.sidebar_id() == Seq::<char>::empty(),
            p.window() == Seq::<char>::empty(),
            p.slot_pane().is_none(),
            p.calls() == runner.calls(),
    {
        PanePreview {
            runner,
            sidebar: crate::panes::SidebarPane::none(),
            preview_slot: None,
            swapped_with: None,
            last_shown: None,
            hidden_until: None,
            focused_pane: None,
            focus_checked: None,
            looked: Ghost(Seq::empty()),
        }
    }

    /// Whether the preview slot is already the answer for `job`.
    pub fn is_showing(&self, job: &crate::frame::JobView) -> (b: bool)
        ensures
            b == (self.shown() == Some(key_of(*job))),
    {
        match &self.last_shown {
            Some(key) => key.id == job.id && key.pid == job.extensions.pid,
            None => false,
        }
    }

    /// Whether anything at all is mirrored into the preview slot.
    pub fn is_idle(&self) -> (b: bool)
        ensures
            b == self.shown().is_none(),
    {
        self.last_shown.is_none()
    }

    /// The pane swapped into the slot, if any: where a job the scan cannot
    /// find was last seen.
    pub fn swapped_pane(&self) -> (r: Option<String>)
        ensures
            crate::machine::opt_string_view(r) == self.swapped(),
    {
        self.swapped_with.clone()
    }

    /// `swap-pane` exchanges two panes, so the same exchange undoes it: once
    /// [`Self::show`] has swapped a pane into the slot, putting the slot back
    /// makes the very invocation `show` made.
    pub proof fn lemma_restore_repeats_the_swap(&self, after: Seq<TmuxCall>)
        requires
            self.swapped() is Some,
            self.slot_pane() is Some,
            self.calls().len() >= 3,
            self.calls()[self.calls().len() - 3].args == swap_args(
                self.swapped().unwrap(),
                self.slot_pane().unwrap(),
            ),
            self.unswapped(after),
        ensures
            after[self.calls().len() as int].args == self.calls()[self.calls().len() - 3].args,
    {
    }

    /// Undo the outstanding swap, keeping what is shown as it was.
    fn unswap(&mut self)
        ensures
            final(self).lookups() == old(self).lookups(),
            final(self).shown() == old(self).shown(),
            final(self).sidebar_id() == old(self).sidebar_id(),
            final(self).window() == old(self).window(),
            final(self).slot_pane() == old(self).slot_pane(),
            final(self).hidden_until() == old(self).hidden_until(),
            final(self).focus_seen() == old(self).focus_seen(),
            final(self).focus_asked() == old(self).focus_asked(),
            final(self).swapped().is_none(),
            extends(old(self).calls(), final(self).calls()),
            old(self).unswapped(final(self).calls()),
    {
        let ghost b = self.runner.calls();
        proof {
            lemma_extends_refl(b);
        }
        let slot = match &self.preview_slot {
            Some(s) => s.clone(),
            None => {
                self.swapped_with = None;
                return;
            },
        };
        let foreign = match self.swapped_with.take() {
            Some(f) => f,
            None => return,
        };
        let args = ["swap-pane", "-d", "-s", foreign.as_str(), "-t", slot.as_str()];
        let _ = run_tmux(&mut self.runner, &args);
        let ghost c1 = self.runner.calls();
        proof {
            lemma_one_more_extends(b, c1, argv(args@));
        }
        unset_pane_option(&mut self.runner, foreign.as_str(), PREVIEW_OWNER);
        let ghost c2 = self.runner.calls();
        proof {
            lemma_one_more_extends(c1, c2, unset_pane_args(foreign@, PREVIEW_OWNER@));
            lemma_extends_trans(b, c1, c2);
        }
        unset_window_option(&mut self.runner, self.sidebar.window.as_str(), PREVIEW_SWAP);
        proof {
            let z = self.runner.calls();
            lemma_one_more_extends(c2, z, unset_window_args(self.sidebar.window@, PREVIEW_SWAP@));
            lemma_extends_trans(b, c2, z);
            assert(argv(args@) =~= swap_args(foreign@, slot@));
            assert(z[b.len() as int] == c1.last());
            assert(z[b.len() as int + 1] == c2.last());
        }
    }

    /// Put the preview slot back how it was, and forget what was shown.
    pub fn restore(&mut self)
        ensures
            final(self).lookups() == old(self).lookups(),
            final(self).shown().is_none(),
            final(self).swapped().is_none(),
            final(self).sidebar_id() == old(self).sidebar_id(),
            final(self).window() == old(self).window(),
            final(self).slot_pane() == old(self).slot_pane(),
            extends(old(self).calls(), final(self).calls()),
            old(self).unswapped(final(self).calls()),
    {
        self.last_shown = None;
        self.unswap();
    }

    /// Put the slot back, but keep remembering `job` as shown: what `Enter`
    /// leaves behind, so coming back to the sidebar does not drag the pane
    /// the human is now standing in back into the slot.
    pub fn settle(&mut self, job: &crate::frame::JobView)
        ensures
            final(self).lookups() == old(self).lookups(),
            final(self).shown() == Some(key_of(*job)),
            final(self).swapped().is_none(),
            final(self).sidebar_id() == old(self).sidebar_id(),
            final(self).window() == old(self).window(),
            final(self).slot_pane() == old(self).slot_pane(),
            extends(old(self).calls(), final(self).calls()),
            old(self).unswapped(final(self).calls()),
    {
        self.last_shown = Some(key_exec(job));
        self.unswap();
    }

    /// Show a message in the status line for `ms` milliseconds.
    fn say(&mut self, ms: &str, message: &str)
        ensures
            final(self).lookups() == old(self).lookups(),
            final(self).shown() == old(self).shown(),
            final(self).swapped() == old(self).swapped(),
            final(self).sidebar_id() == old(self).sidebar_id(),
            one_more_call(old(self).calls(), final(self).calls(), seq!["display-message"@, "-d"@, ms@, message@]),
    {
        let args = ["display-message", "-d", ms, message];
        assert(argv(args@) =~= seq!["display-message"@, "-d"@, ms@, message@]);
        let _ = run_tmux(&mut self.runner, &args);
    }

    /// Restore the preview swap, then focus the job.
    ///
    /// Prefer the job's own tmux pane, or the ssh pane that reaches its
    /// machine; only when its workspace link is an IDE deep link (the agent
    /// ran inside that editor's terminal) answer that the IDE should open it.
    /// Either way the job is remembered as shown, so coming back to the
    /// sidebar does not drag its pane back into the slot.
    pub fn jump_to_job<P: JobPanes>(&mut self, job: &crate::frame::JobView, panes: &mut P) -> (r: JumpResult)
        ensures
            r == jump_outcome(*old(self), *job, final(self).calls()),
            old(self).lookups().len() <= final(self).lookups().len(),
            final(self).lookups().subrange(0, old(self).lookups().len() as int) == old(self).lookups(),
            jump_lookups(
                *job,
                old(self).swapped(),
                final(self).lookups(),
                old(self).lookups().len() as int,
                final(self).calls(),
                settled_at(*old(self)),
                r is TmuxPane,
            ),
            final(self).shown() == Some(key_of(*job)),
            final(self).swapped().is_none(),
            final(self).sidebar_id() == old(self).sidebar_id(),
            extends(old(self).calls(), final(self).calls()),
            r is NeedsIde ==> has_ide_link(*job),
            r is TmuxPane ==> final(self).calls().len() > old(self).calls().len()
                && final(self).calls().last().args == crate::cli::toggle::select_pane_args(final(self).calls().last().args[2])
                && final(self).calls().last().reply.is_some(),
            r is Failed ==> final(self).calls().len() > old(self).calls().len()
                && final(self).calls().last().args[0] == "display-message"@,
    {
        let ghost b = self.runner.calls();
        let ghost l0 = self.looked@;
        let local = panes.local_alias();
        proof {
            self.looked@ = self.looked@.push(Lookup::LocalAlias { answer: opt_string_view(local) });
        }
        let foreign = match crate::machine::foreign_alias(job.alias.as_str(), crate::machine::opt_str(&local)) {
            Some(alias) => Some(crate::text::string_of(&chars_of(alias))),
            None => None,
        };
        match foreign {
            Some(alias) => {
                let ghost l1 = self.looked@;
                let r = self.jump_to_remote_job(job, alias.as_str(), panes, crate::machine::opt_str(&local));
                proof {
                    assert(self.looked@[l0.len() as int] == self.looked@.subrange(0, l1.len() as int)[l0.len() as int]);
                    assert(self.looked@.subrange(0, l0.len() as int) =~= self.looked@.subrange(0, l1.len() as int).subrange(0, l0.len() as int));
                }
                r
            },
            None => {
                let found = panes.local_pane(job);
                proof {
                    self.looked@ = self.looked@.push(Lookup::LocalPane { job: job.id@, answer: opt_string_view(found) });
                }
                let target = match found {
                    Some(p) => Some(p),
                    None => self.swapped_with.clone(),
                };
                self.settle(job);
                let ghost c1 = self.runner.calls();
                if let Some(pane) = target {
                    if pane_exists(&mut self.runner, pane.as_str()) {
                        let ghost c2 = self.runner.calls();
                        proof {
                            lemma_one_more_extends(c1, c2, pane_id_args(pane@));
                            lemma_extends_trans(b, c1, c2);
                        }
                        if switch_to_pane(&mut self.runner, pane.as_str()) {
                            proof {
                                let z = self.runner.calls();
                                lemma_extends_trans(b, c2, z);
                                lemma_extends_agree(c2, z);
                                assert(z[c1.len() as int] == c2.last());
                                assert(z[z.len() - 1].args == crate::cli::toggle::select_pane_args(pane@));
                            }
                            return JumpResult::TmuxPane;
                        }
                        proof {
                            lemma_extends_trans(b, c2, self.runner.calls());
                        }
                        let ghost c3 = self.runner.calls();
                        self.say("2000", "Nerve: could not switch to job pane");
                        proof {
                            let z = self.runner.calls();
                            lemma_one_more_extends(c3, z, seq!["display-message"@, "-d"@, "2000"@, "Nerve: could not switch to job pane"@]);
                            lemma_extends_trans(b, c3, z);
                            lemma_extends_trans(c2, c3, z);
                            lemma_extends_agree(c2, z);
                            assert(z[c1.len() as int] == c2.last());
                            reveal_strlit("display-message");
                            reveal_strlit("select-pane");
                            assert(z.last().args[0] == "display-message"@);
                            assert(crate::cli::toggle::select_pane_args(pane@)[0] == "select-pane"@);
                            assert("display-message"@.len() != "select-pane"@.len());
                            assert(z.last().args[0] != crate::cli::toggle::select_pane_args(pane@)[0]);
                            lemma_extends_agree(c3, z);
                            assert(z[c3.len() - 1] == c3.last());
                            assert(z[z.len() - 2].args == crate::cli::toggle::select_pane_args(pane@));
                            assert(z[c1.len() + 1int] == c3[c2.len() as int]);
                        }
                        return JumpResult::Failed;
                    }
                    proof {
                        lemma_one_more_extends(c1, self.runner.calls(), pane_id_args(pane@));
                        lemma_extends_trans(b, c1, self.runner.calls());
                    }
                }
                self.give_up(job, crate::machine::opt_str(&local), Ghost(b))
            },
        }
    }

    /// No pane to land on: the IDE, when the job's link is a deep link into
    /// one, else a message saying why.
    fn give_up(&mut self, job: &crate::frame::JobView, local: Option<&str>, Ghost(b): Ghost<Seq<TmuxCall>>) -> (r: JumpResult)
        requires
            extends(b, old(self).calls()),
        ensures
            extends(old(self).calls(), final(self).calls()),
            final(self).lookups() == old(self).lookups(),
            final(self).shown() == old(self).shown(),
            final(self).swapped() == old(self).swapped(),
            final(self).sidebar_id() == old(self).sidebar_id(),
            extends(b, final(self).calls()),
            r is NeedsIde && has_ide_link(*job) && final(self).calls() == old(self).calls() || r is Failed
                && !has_ide_link(*job) && final(self).calls().len() == old(self).calls().len() + 1
                && final(self).calls().last().args.len() == 4 && final(self).calls().last().args[0]
                == "display-message"@ && final(self).calls().last().args[1] == "-d"@,
    {
        if job_has_ide_link(job) {
            proof {
                lemma_extends_refl(self.runner.calls());
            }
            return JumpResult::NeedsIde;
        }
        let mut v: Vec<char> = Vec::new();
        crate::text::extend_str(&mut v, "Nerve: ");
        let why = nothing_to_show(job, local);
        crate::text::extend_str(&mut v, why.as_str());
        let message = crate::text::string_of(&v);
        let ghost c = self.runner.calls();
        self.say("3500", message.as_str());
        proof {
            reveal_strlit("display-message");
            lemma_one_more_extends(c, self.runner.calls(), seq!["display-message"@, "-d"@, "3500"@, message@]);
            lemma_extends_trans(b, c, self.runner.calls());
        }
        JumpResult::Failed
    }

    /// Land on a job running on another machine: focus the ssh pane that
    /// reaches it, then ask that machine's tmux to turn to the window the
    /// agent is on. Without the second step every job on a machine lands on
    /// whatever the ssh pane happens to be showing.
    fn jump_to_remote_job<P: JobPanes>(
        &mut self,
        job: &crate::frame::JobView,
        alias: &str,
        panes: &mut P,
        local: Option<&str>,
    ) -> (r: JumpResult)
        ensures
            r == jump_outcome(*old(self), *job, final(self).calls()),
            old(self).lookups().len() <= final(self).lookups().len(),
            final(self).lookups().subrange(0, old(self).lookups().len() as int) == old(self).lookups(),
            remote_lookups(
                *job,
                alias@,
                final(self).lookups(),
                old(self).lookups().len() as int,
                final(self).calls(),
                settled_at(*old(self)),
                r is TmuxPane,
            ),
            final(self).shown() == Some(key_of(*job)),
            final(self).swapped().is_none(),
            final(self).sidebar_id() == old(self).sidebar_id(),
            extends(old(self).calls(), final(self).calls()),
            r is NeedsIde ==> has_ide_link(*job),
            r is TmuxPane ==> final(self).calls().len() > old(self).calls().len()
                && final(self).calls().last().args == crate::cli::toggle::select_pane_args(final(self).calls().last().args[2])
                && final(self).calls().last().reply.is_some(),
            r is Failed ==> final(self).calls().len() > old(self).calls().len()
                && final(self).calls().last().args[0] == "display-message"@,
    {
        let ghost b = self.runner.calls();
        let route = panes.ssh_route(alias);
        proof {
            self.looked@ = self.looked@.push(Lookup::SshRoute {
                alias: alias@,
                route: crate::panes::route_opt_view(route),
            });
        }
        self.settle(job);
        let ghost c1 = self.runner.calls();
        let route = match route {
            Some(route) => {
                if pane_exists(&mut self.runner, route.pane.as_str()) {
                    proof {
                        lemma_one_more_extends(c1, self.runner.calls(), pane_id_args(route.pane@));
                        lemma_extends_trans(b, c1, self.runner.calls());
                    }
                    route
                } else {
                    proof {
                        lemma_one_more_extends(c1, self.runner.calls(), pane_id_args(route.pane@));
                        lemma_extends_trans(b, c1, self.runner.calls());
                    }
                    let ghost c5 = self.runner.calls();
                    let r = self.give_up(job, local, Ghost(b));
                    proof {
                        lemma_extends_agree(c5, self.runner.calls());
                        assert(self.runner.calls()[c1.len() as int] == c5[c1.len() as int]);
                    }
                    return r;
                }
            },
            None => {
                return self.give_up(job, local, Ghost(b));
            },
        };
        let ghost c2 = self.runner.calls();
        if !switch_to_pane(&mut self.runner, route.pane.as_str()) {
            proof {
                lemma_extends_trans(b, c2, self.runner.calls());
            }
            let ghost c3 = self.runner.calls();
            self.say("2000", "Nerve: could not switch to the ssh pane");
            proof {
                let z = self.runner.calls();
                lemma_one_more_extends(c3, z, seq!["display-message"@, "-d"@, "2000"@, "Nerve: could not switch to the ssh pane"@]);
                lemma_extends_trans(b, c3, z);
                lemma_extends_trans(c2, c3, z);
                lemma_extends_agree(c2, z);
                assert(z[c1.len() as int] == c2[c1.len() as int]);
                reveal_strlit("display-message");
                reveal_strlit("select-pane");
                assert(z.last().args[0] == "display-message"@);
                assert(crate::cli::toggle::select_pane_args(route.pane@)[0] == "select-pane"@);
                assert("display-message"@.len() != "select-pane"@.len());
                assert(z.last().args[0] != crate::cli::toggle::select_pane_args(route.pane@)[0]);
                lemma_extends_agree(c3, z);
                assert(z[c3.len() - 1] == c3.last());
                assert(z[z.len() - 2].args == crate::cli::toggle::select_pane_args(route.pane@));
                assert(z[c1.len() + 1int] == c3[c2.len() as int]);
            }
            return JumpResult::Failed;
        }
        proof {
            let z = self.runner.calls();
            lemma_extends_trans(b, c2, z);
            lemma_extends_agree(c2, z);
            assert(z[c1.len() as int] == c2.last());
            assert(z[z.len() - 1].args == crate::cli::toggle::select_pane_args(route.pane@));
        }
        if let Some(pid) = job.extensions.pid {
            panes.request_remote(route.destination.as_str(), pid);
            proof {
                self.looked@ = self.looked@.push(Lookup::Requested { destination: route.destination@, pid });
            }
        }
        JumpResult::TmuxPane
    }

    /// Whether this sidebar's window is the one its client is looking at.
    fn window_is_current(&mut self) -> (b: bool)
        ensures
            final(self).same_but_screen(old(self)),
            final(self).hidden_until() == old(self).hidden_until(),
            one_more_call(old(self).calls(), final(self).calls(), display_args(old(self).sidebar_id(), "#{window_active}"@)),
            b == (reply_text(final(self).calls().last()) == "1"@),
    {
        let active = display_message(&mut self.runner, self.sidebar.id.as_str(), "#{window_active}");
        let v = chars_of(active.as_str());
        crate::text::vec_eq(&v, "1")
    }

    /// Whether this sidebar's window is on screen, asked at most once a second
    /// (of `now_ms`) while it is not.
    fn on_screen(&mut self, now_ms: u64) -> (b: bool)
        ensures
            final(self).same_but_screen(old(self)),
            extends(old(self).calls(), final(self).calls()),
            old(self).hidden_at(now_ms) ==> !b && final(self).calls() == old(self).calls()
                && final(self).hidden_until() == old(self).hidden_until(),
            !old(self).hidden_at(now_ms) ==> {
                &&& one_more_call(old(self).calls(), final(self).calls(), display_args(old(self).sidebar_id(), "#{window_active}"@))
                &&& b == (reply_text(final(self).calls().last()) == "1"@)
                &&& final(self).hidden_until() == if b {
                    None
                } else {
                    Some(now_ms.saturating_add(HIDDEN_RECHECK_MS))
                }
            },
    {
        let ghost b = self.runner.calls();
        if let Some(until) = self.hidden_until {
            if now_ms < until {
                proof {
                    lemma_extends_refl(b);
                }
                return false;
            }
        }
        let current = self.window_is_current();
        proof {
            lemma_one_more_extends(b, self.runner.calls(), display_args(self.sidebar.id@, "#{window_active}"@));
        }
        if current {
            self.hidden_until = None;
            return true;
        }
        self.hidden_until = Some(now_ms.saturating_add(HIDDEN_RECHECK_MS));
        false
    }

    /// The pane the preview paints into, re-detected if it went away.
    fn slot(&mut self) -> (r: Option<String>)
        ensures
            final(self).lookups() == old(self).lookups(),
            final(self).shown() == old(self).shown(),
            final(self).sidebar_id() == old(self).sidebar_id(),
            final(self).window() == old(self).window(),
            final(self).hidden_until() == old(self).hidden_until(),
            final(self).focus_seen() == old(self).focus_seen(),
            final(self).focus_asked() == old(self).focus_asked(),
            final(self).slot_pane() == crate::machine::opt_string_view(r),
            extends(old(self).calls(), final(self).calls()),
            slot_steps(old(self).slot_pane(), old(self).window(), final(self).calls(), old(self).calls().len() as int),
            slot_end(old(self).slot_pane(), final(self).calls(), old(self).calls().len() as int) == final(self).calls().len(),
            crate::machine::opt_string_view(r) == slot_found(
                old(self).slot_pane(),
                old(self).sidebar_id(),
                final(self).calls(),
                old(self).calls().len() as int,
            ),
            final(self).swapped() == if slot_lost(old(self).slot_pane(), final(self).calls(), old(self).calls().len() as int) {
                None
            } else {
                old(self).swapped()
            },
    {
        let ghost b = self.runner.calls();
        if let Some(slot) = self.preview_slot.clone() {
            let alive = pane_exists(&mut self.runner, slot.as_str());
            proof {
                lemma_one_more_extends(b, self.runner.calls(), pane_id_args(slot@));
            }
            if alive {
                return Some(slot);
            }
            self.preview_slot = None;
            self.swapped_with = None;
        } else {
            proof {
                lemma_extends_refl(b);
            }
        }
        let ghost c1 = self.runner.calls();
        let found = crate::tmux::sibling_content_pane(
            &mut self.runner,
            self.sidebar.window.as_str(),
            self.sidebar.id.as_str(),
        );
        proof {
            lemma_one_more_extends(c1, self.runner.calls(), crate::tmux::list_panes_args(self.sidebar.window@));
            lemma_extends_trans(b, c1, self.runner.calls());
        }
        self.preview_slot = found.clone();
        found
    }

    /// The pane this job is showing on, wherever it lives, and this
    /// machine's alias as the lookups gave it.
    ///
    /// A job on another machine has no pane of its own here, so the ssh
    /// session that reaches it is what gets shown, and that machine's tmux is
    /// asked to turn to this job's window: that is what makes one shared
    /// session show the row under the cursor rather than whatever it was left
    /// on.
    fn pane_to_show<P: JobPanes>(&mut self, job: &crate::frame::JobView, panes: &mut P) -> (r: (
        Option<String>,
        Option<String>,
    ))
        ensures
            final(self).same_but_screen_and_lookups(old(self)),
            final(self).calls() == old(self).calls(),
            final(self).hidden_until() == old(self).hidden_until(),
            old(self).lookups().len() <= final(self).lookups().len(),
            final(self).lookups().subrange(0, old(self).lookups().len() as int) == old(self).lookups(),
            pane_lookups(*job, final(self).lookups(), old(self).lookups().len() as int),
            opt_string_view(r.0) == found_pane(final(self).lookups(), old(self).lookups().len() as int),
            opt_string_view(r.1) == alias_answer(final(self).lookups(), old(self).lookups().len() as int),
    {
        let ghost l0 = self.looked@;
        let local = panes.local_alias();
        proof {
            self.looked@ = self.looked@.push(Lookup::LocalAlias { answer: opt_string_view(local) });
        }
        let pane = match crate::machine::foreign_alias(job.alias.as_str(), crate::machine::opt_str(&local)) {
            None => {
                let found = panes.local_pane(job);
                proof {
                    self.looked@ = self.looked@.push(Lookup::LocalPane { job: job.id@, answer: opt_string_view(found) });
                }
                found
            },
            Some(alias) => {
                let route = panes.ssh_route(alias);
                proof {
                    self.looked@ = self.looked@.push(Lookup::SshRoute {
                        alias: alias@,
                        route: crate::panes::route_opt_view(route),
                    });
                }
                match route {
                    Some(route) => {
                        if let Some(pid) = job.extensions.pid {
                            panes.request_remote(route.destination.as_str(), pid);
                            proof {
                                self.looked@ = self.looked@.push(Lookup::Requested { destination: route.destination@, pid });
                            }
                        }
                        Some(route.pane)
                    },
                    None => None,
                }
            },
        };
        proof {
            assert(self.looked@.subrange(0, l0.len() as int) =~= l0);
        }
        (pane, local)
    }

    /// Show `job` in the pane beside the sidebar, putting any earlier swap
    /// back first.
    ///
    /// Nothing happens for a job already shown, for a sidebar that is no
    /// pane, while this window is off screen (nothing is remembered then) or
    /// when the window has no slot. Otherwise the job is remembered as shown
    /// and, when its pane is elsewhere, swapped into the slot and claimed.
    pub fn show<P: JobPanes>(&mut self, job: &crate::frame::JobView, now_ms: u64, panes: &mut P)
        ensures
            final(self).sidebar_id() == old(self).sidebar_id(),
            final(self).window() == old(self).window(),
            final(self).focus_seen() == old(self).focus_seen(),
            final(self).focus_asked() == old(self).focus_asked(),
            extends(old(self).calls(), final(self).calls()),
            show_steps(*old(self), *final(self), *job, now_ms),
    {
        let ghost b = self.runner.calls();
        let ghost before = *self;
        let ghost i = b.len() as int;
        proof {
            lemma_extends_refl(b);
        }
        if self.is_showing(job) {
            return;
        }
        if self.sidebar.id.unicode_len() == 0 {
            return;
        }
        let visible = self.on_screen(now_ms);
        let ghost c1 = self.runner.calls();
        if !visible {
            return;
        }
        proof {
            assert(c1.len() == i + 1);
            assert(c1[i] == c1.last());
        }
        let slot = self.slot();
        let ghost c2 = self.runner.calls();
        let ghost j = i + 1;
        proof {
            lemma_extends_trans(b, c1, c2);
            lemma_extends_agree(c1, c2);
            assert(c2[i] == c1[i]);
        }
        let slot = match slot {
            Some(s) => s,
            None => return,
        };
        let ghost k = c2.len() as int;
        let ghost kept = self.swapped();
        self.unswap();
        let ghost c3 = self.runner.calls();
        proof {
            lemma_extends_trans(b, c2, c3);
            lemma_extends_agree(c2, c3);
            assert(c3[i] == c2[i]);
            assert(c3[j] == c2[j]);
            if slot_lost(before.slot_pane(), c2, j) {
                assert(c3[j + 1] == c2[j + 1]);
            }
        }
        self.last_shown = Some(key_exec(job));
        let ghost l0 = self.looked@;
        let (answer, local) = self.pane_to_show(job, panes);
        let pane = match answer {
            Some(p) => p,
            None => {
                let what = nothing_to_show(job, crate::machine::opt_str(&local));
                let mut m: Vec<char> = Vec::new();
                crate::text::extend_str(&mut m, "Nerve: ");
                crate::text::extend_str(&mut m, what.as_str());
                let message = crate::text::string_of(&m);
                let args = ["display-message", "-d", "2000", message.as_str()];
                let _ = run_tmux(&mut self.runner, &args);
                proof {
                    let z = self.runner.calls();
                    lemma_one_more_extends(c3, z, argv(args@));
                    lemma_extends_trans(b, c3, z);
                    lemma_extends_agree(c3, z);
                    assert(z[i] == c3[i]);
                    assert(z[j] == c3[j]);
                    if slot_lost(before.slot_pane(), c2, j) {
                        assert(z[j + 1] == c3[j + 1]);
                    }
                    if kept is Some {
                        assert(z[k] == c3[k]);
                        assert(z[k + 1] == c3[k + 1]);
                        assert(z[k + 2] == c3[k + 2]);
                    }
                    assert(z[c3.len() as int] == z.last());
                    assert(argv(args@) =~= seq![
                        "display-message"@,
                        "-d"@,
                        "2000"@,
                        "Nerve: "@ + nothing_to_show_spec(*job, crate::machine::opt_string_view(local)),
                    ]);
                }
                return;
            },
        };
        let pv = chars_of(pane.as_str());
        let sv = chars_of(slot.as_str());
        if crate::text::seq_eq(&pv, &sv) {
            return;
        }
        let window = display_message(&mut self.runner, pane.as_str(), "#{window_id}");
        let ghost c4 = self.runner.calls();
        let ghost m = c3.len() as int;
        proof {
            lemma_one_more_extends(c3, c4, display_args(pane@, "#{window_id}"@));
            lemma_extends_trans(b, c3, c4);
            lemma_extends_agree(c3, c4);
            assert(c4[m] == c4.last());
        }
        if window == self.sidebar.window {
            proof {
                assert(reply_text(c4[m]) == before.window());
                assert(c4[i] == c3[i]);
                assert(c4[j] == c3[j]);
                if slot_lost(before.slot_pane(), c2, j) {
                    assert(c4[j + 1] == c3[j + 1]);
                }
                if kept is Some {
                    assert(c4[k] == c3[k]);
                    assert(c4[k + 1] == c3[k + 1]);
                    assert(c4[k + 2] == c3[k + 2]);
                }
            }
            return;
        }
        let args = ["swap-pane", "-d", "-s", pane.as_str(), "-t", slot.as_str()];
        let swapped = run_tmux(&mut self.runner, &args);
        let ghost c5 = self.runner.calls();
        proof {
            lemma_one_more_extends(c4, c5, argv(args@));
            lemma_extends_trans(b, c4, c5);
            assert(argv(args@) =~= swap_args(pane@, slot@));
            assert(reply_text(c4[m]) != before.window());
        }
        let ghost mut c6: Seq<TmuxCall> = c5;
        if swapped.is_some() {
            let mut record: Vec<char> = Vec::new();
            crate::text::extend_str(&mut record, pane.as_str());
            record.push(' ');
            crate::text::extend_str(&mut record, slot.as_str());
            assert(record@ =~= pane@ + seq![' '] + slot@);
            let record = crate::text::string_of(&record);
            crate::tmux::set_window_option(
                &mut self.runner,
                self.sidebar.window.as_str(),
                PREVIEW_SWAP,
                record.as_str(),
            );
            proof {
                c6 = self.runner.calls();
                lemma_one_more_extends(c5, c6, crate::tmux::set_window_args(self.sidebar.window@, PREVIEW_SWAP@, record@));
                lemma_extends_trans(b, c5, c6);
            }
            crate::tmux::set_pane_option(
                &mut self.runner,
                pane.as_str(),
                PREVIEW_OWNER,
                self.sidebar.id.as_str(),
            );
            self.swapped_with = Some(pane);
        }
        proof {
            let z = self.runner.calls();
            if swapped.is_some() {
                lemma_one_more_extends(c6, z, crate::tmux::set_pane_args(pane@, PREVIEW_OWNER@, self.sidebar.id@));
                lemma_extends_trans(b, c6, z);
                lemma_extends_trans(c5, c6, z);
            } else {
                lemma_extends_refl(c5);
            }
            lemma_extends_trans(c4, c5, z);
            lemma_extends_trans(c3, c4, z);
            lemma_extends_agree(c3, z);
            assert(z[i] == c3[i]);
            assert(z[j] == c3[j]);
            if slot_lost(before.slot_pane(), c2, j) {
                assert(z[j + 1] == c3[j + 1]);
            }
            if kept is Some {
                assert(z[k] == c3[k]);
                assert(z[k + 1] == c3[k + 1]);
                assert(z[k + 2] == c3[k + 2]);
            }
            lemma_extends_agree(c5, z);
            assert(z[m] == c5[m]);
            assert(z[m + 1] == c5[m + 1]);
            assert(c5[m] == c4[m]);
        }
    }

    /// The tty of the pane the human just moved to, when that changed: the
    /// other half of "highlight moves, pane follows". `None` while the
    /// sidebar itself has the keyboard, while nothing has moved since the
    /// last look, and more often than every [`FOCUS_POLL_MS`] of `now_ms`.
    pub fn newly_focused_tty(&mut self, now_ms: u64) -> (r: Option<String>)
        ensures
            final(self).lookups() == old(self).lookups(),
            final(self).shown() == old(self).shown(),
            final(self).swapped() == old(self).swapped(),
            final(self).sidebar_id() == old(self).sidebar_id(),
            final(self).window() == old(self).window(),
            final(self).slot_pane() == old(self).slot_pane(),
            extends(old(self).calls(), final(self).calls()),
            old(self).sidebar_id().len() == 0 || old(self).focus_throttled(now_ms) ==> {
                &&& r is None
                &&& final(self).calls() == old(self).calls()
                &&& final(self).focus_seen() == old(self).focus_seen()
                &&& final(self).focus_asked() == old(self).focus_asked()
            },
            old(self).sidebar_id().len() > 0 && !old(self).focus_throttled(now_ms) ==> {
                let a = final(self).calls();
                &&& one_more_call(old(self).calls(), a, display_args(old(self).window(), "#{pane_id}\t#{pane_tty}"@))
                &&& final(self).focus_asked() == Some(now_ms)
                &&& crate::machine::opt_string_view(r) == newly_focused(
                    old(self).focus_seen(),
                    old(self).sidebar_id(),
                    reply_text(a.last()),
                )
                &&& match focus_answer(reply_text(a.last())) {
                    None => r is None && final(self).focus_seen() == old(self).focus_seen(),
                    Some((pane, tty)) => if old(self).focus_seen() == Some(pane) {
                        r is None && final(self).focus_seen() == old(self).focus_seen()
                    } else {
                        &&& final(self).focus_seen() == Some(pane)
                        &&& crate::machine::opt_string_view(r) == if pane == old(self).sidebar_id() {
                            None
                        } else {
                            Some(tty)
                        }
                    },
                }
            },
    {
        let ghost b = self.runner.calls();
        proof {
            lemma_extends_refl(b);
        }
        if self.sidebar.id.unicode_len() == 0 {
            return None;
        }
        if let Some(at) = self.focus_checked {
            if now_ms >= at && now_ms - at < FOCUS_POLL_MS {
                return None;
            }
        }
        self.focus_checked = Some(now_ms);
        let active = display_message(&mut self.runner, self.sidebar.window.as_str(), "#{pane_id}\t#{pane_tty}");
        proof {
            lemma_one_more_extends(b, self.runner.calls(), display_args(self.sidebar.window@, "#{pane_id}\t#{pane_tty}"@));
        }
        let v = chars_of(active.as_str());
        let tab = crate::text::before_first_in(&v, 0, v.len(), '\t');
        proof {
            let a = self.runner.calls();
            assert(a.last().reply matches Some(out) ==> out == v@);
            assert(reply_text(a.last()) == v@);
            assert(v@.skip(0) =~= v@);
            if tab < v.len() {
                crate::text::lemma_find_char_at(v@, '\t', 0, tab as int);
            } else {
                crate::text::lemma_find_char_none(v@, '\t', 0);
            }
        }
        if tab == v.len() || tab == 0 {
            return None;
        }
        let pane = crate::text::string_of_range(&v, 0, tab);
        proof {
            assert(v@.subrange(0, tab as int) =~= v@.take(tab as int));
            assert(v@.subrange(tab + 1, v.len() as int) =~= v@.skip(tab + 1));
        }
        if let Some(seen) = &self.focused_pane {
            if *seen == pane {
                return None;
            }
        }
        self.focused_pane = Some(pane.clone());
        if pane == self.sidebar.id {
            return None;
        }
        Some(crate::text::string_of_range(&v, tab + 1, v.len()))
    }

    /// Pids on the pane the human just moved to, when that changed, read from
    /// the process table `procs`.
    pub fn newly_focused_pids(&mut self, now_ms: u64, procs: &crate::procs::ProcTable) -> (r: Option<Vec<u32>>)
        ensures
            final(self).lookups() == old(self).lookups(),
            final(self).shown() == old(self).shown(),
            final(self).swapped() == old(self).swapped(),
            final(self).sidebar_id() == old(self).sidebar_id(),
            final(self).window() == old(self).window(),
            final(self).slot_pane() == old(self).slot_pane(),
            extends(old(self).calls(), final(self).calls()),
            old(self).sidebar_id().len() == 0 || old(self).focus_throttled(now_ms) ==> r is None
                && final(self).calls() == old(self).calls(),
            old(self).sidebar_id().len() > 0 && !old(self).focus_throttled(now_ms) ==> {
                let a = final(self).calls();
                &&& one_more_call(old(self).calls(), a, display_args(old(self).window(), "#{pane_id}\t#{pane_tty}"@))
                &&& match newly_focused(old(self).focus_seen(), old(self).sidebar_id(), reply_text(a.last())) {
                    None => r is None,
                    Some(tty) => r matches Some(pids) && pids@ == crate::procs::pids_on_tty_spec(procs@, tty),
                }
            },
    {
        match self.newly_focused_tty(now_ms) {
            Some(tty) => Some(procs.pids_on_tty(tty.as_str())),
            None => None,
        }
    }
}

/// Why this tmux has nothing to show for `job`, `local` being this
/// machine's alias: a job on another machine names that machine (there is
/// nothing here to match, and ssh there is the way to it); a local job whose
/// pane could not be found names its workspace, `?` when it has none.
pub open spec fn nothing_to_show_spec(job: crate::frame::JobView, local: Option<Seq<char>>) -> Seq<char> {
    match crate::machine::foreign_alias_spec(job.alias@, local) {
        Some(alias) => alias + " is another machine — no ssh pane here"@,
        None => "no local pane for "@ + match crate::state::job_path_spec(job) {
            Some(p) => p,
            None => seq!['?'],
        },
    }
}

pub fn nothing_to_show(job: &crate::frame::JobView, local: Option<&str>) -> (r: String)
    ensures
        r@ == nothing_to_show_spec(*job, opt_view(local)),
{
    let mut v: Vec<char> = Vec::new();
    match crate::machine::foreign_alias(job.alias.as_str(), local) {
        Some(alias) => {
            crate::text::extend_str(&mut v, alias);
            crate::text::extend_str(&mut v, " is another machine — no ssh pane here");
        },
        None => {
            crate::text::extend_str(&mut v, "no local pane for ");
            match crate::state::job_path(job) {
                Some(p) => crate::text::extend_str(&mut v, p.as_str()),
                None => v.push('?'),
            }
        },
    }
    crate::text::string_of(&v)
}

} // verus!
