//! `install`: wire this tmux server (the TPM / run-shell entry).
//!
//! Sets the option defaults, binds the toggle and close keys, removes what
//! older installs left behind, and installs the two hooks. Every tmux call is
//! an argument array; the command always exits 0.
use vstd::prelude::*;

use crate::machine::opt_string_view;
use crate::text::{
    chars_of, contains_str, contains_str_in, extend_str, find_str, find_str_in, lines, string_of,
    string_of_range, trim, trim_bounds, trim_range, word_spans, words,
};
use crate::tmux::{
    argv, extends, lemma_extends_refl, lemma_extends_trans, lemma_one_more_extends, one_more_call, option_value, run_tmux, set_option_args, show_option_args, TmuxCall,
    Tmux, TmuxRunner, SIDEBAR_BOTTOM_HEIGHT, SIDEBAR_POSITION, SIDEBAR_WIDTH,
};

verus! {

pub const AUTO_CREATE: &'static str = "@nerve_sidebar_auto_create";

pub const TOGGLE_KEY: &'static str = "@nerve_sidebar_key";

pub const CLOSE_KEY: &'static str = "@nerve_sidebar_close_key";

pub const SIDEBAR_BIN: &'static str = "@nerve_sidebar_bin";

/// Expanded at hook time, not at install time: the helper may move.
pub const AFTER_NEW_WINDOW: &'static str = "run-shell '\"#{@nerve_sidebar_bin}\" toggle --create-only \"#{window_id}\" \"#{pane_current_path}\"'";

pub const PANE_EXITED: &'static str = "run-shell '\"#{@nerve_sidebar_bin}\" auto-close \"#{window_id}\"'";

/// The argument lists of a run of invocations.
pub open spec fn call_args(calls: Seq<TmuxCall>) -> Seq<Seq<Seq<char>>> {
    calls.map_values(|c: TmuxCall| c.args)
}

/// Whether a read of an option found nothing: tmux failed, or the option is
/// unset or blank.
pub open spec fn read_gives_none(reply: Option<Seq<char>>) -> bool {
    match reply {
        None => true,
        Some(out) => option_value(out).is_none(),
    }
}

/// Read a global option; `None` when it is unset, blank, or tmux failed.
pub fn option<R: TmuxRunner>(runner: &mut Tmux<R>, name: &str) -> (r: Option<String>)
    ensures
        one_more_call(old(runner).calls(), final(runner).calls(), show_option_args(name@)),
        match final(runner).calls().last().reply {
            Some(out) => opt_string_view(r) == option_value(out),
            None => r is None,
        },
{
    let args = ["show-options", "-gqv", name];
    assert(argv(args@) =~= show_option_args(name@));
    let value = match run_tmux(runner, &args) {
        Some(v) => v,
        None => return None,
    };
    let v = chars_of(value.as_str());
    let (a, b) = trim_bounds(&v);
    if a == b {
        None
    } else {
        Some(string_of_range(&v, a, b))
    }
}

/// Set `name` to `value` only when the option reads as unset.
pub fn set_default<R: TmuxRunner>(runner: &mut Tmux<R>, name: &str, value: &str)
    ensures
        ({
            let b = old(runner).calls();
            let a = final(runner).calls();
            &&& a.len() > b.len()
            &&& a.subrange(0, b.len() as int) == b
            &&& a[b.len() as int].args == show_option_args(name@)
            &&& if read_gives_none(a[b.len() as int].reply) {
                a.len() == b.len() + 2 && a[b.len() as int + 1].args == set_option_args(name@, value@)
            } else {
                a.len() == b.len() + 1
            }
        }),
{
    let ghost b = runner.calls();
    let current = option(runner, name);
    let ghost m = runner.calls();
    assert(m.subrange(0, b.len() as int) =~= b);
    if current.is_none() {
        let args = ["set", "-g", name, value];
        assert(argv(args@) =~= set_option_args(name@, value@));
        let _ = run_tmux(runner, &args);
        assert(runner.calls().subrange(0, b.len() as int) =~= b);
        assert(runner.calls()[b.len() as int] == m[b.len() as int]);
    }
}

/// `bind <key> run-shell <payload>`.
pub open spec fn bind_args(key: Seq<char>, payload: Seq<char>) -> Seq<Seq<char>> {
    seq!["bind"@, key, "run-shell"@, payload]
}

/// Bind `key` in the prefix table to run `payload`.
pub fn bind_run<R: TmuxRunner>(runner: &mut Tmux<R>, key: &str, payload: &str)
    ensures
        one_more_call(old(runner).calls(), final(runner).calls(), bind_args(key@, payload@)),
{
    let args = ["bind", key, "run-shell", payload];
    assert(argv(args@) =~= bind_args(key@, payload@));
    let _ = run_tmux(runner, &args);
}

/// The toggle binding's command: the window and path are expanded when the
/// key is pressed, not when it is bound.
pub open spec fn toggle_payload_spec(bin: Seq<char>) -> Seq<char> {
    seq!['"'] + bin + "\" toggle \"#{window_id}\" \"#{pane_current_path}\""@
}

pub open spec fn close_payload_spec(bin: Seq<char>) -> Seq<char> {
    seq!['"'] + bin + "\" close \"#{window_id}\""@
}

pub fn toggle_payload(bin: &str) -> (r: String)
    ensures
        r@ == toggle_payload_spec(bin@),
{
    let mut v: Vec<char> = Vec::new();
    v.push('"');
    extend_str(&mut v, bin);
    extend_str(&mut v, "\" toggle \"#{window_id}\" \"#{pane_current_path}\"");
    assert(v@ =~= toggle_payload_spec(bin@));
    string_of(&v)
}

pub fn close_payload(bin: &str) -> (r: String)
    ensures
        r@ == close_payload_spec(bin@),
{
    let mut v: Vec<char> = Vec::new();
    v.push('"');
    extend_str(&mut v, bin);
    extend_str(&mut v, "\" close \"#{window_id}\"");
    assert(v@ =~= close_payload_spec(bin@));
    string_of(&v)
}

// ───────────────────────────── legacy bindings ─────────────────────────────

/// Bindings older installs left on `prefix+j` / `E`: this helper's `popup`
/// and `toggle-all`.
pub open spec fn is_legacy_spec(line: Seq<char>) -> bool {
    contains_str(line, "nerve-tmux-surface"@) && (contains_str(line, "popup"@) || contains_str(
        line,
        "toggle-all"@,
    ))
}

pub fn is_legacy_prefix_binding(line: &str) -> (b: bool)
    ensures
        b == is_legacy_spec(line@),
{
    let v = chars_of(line);
    assert(v@.subrange(0, v.len() as int) =~= v@);
    contains_str_in(&v, 0, v.len(), "nerve-tmux-surface") && (contains_str_in(
        &v,
        0,
        v.len(),
        "popup",
    ) || contains_str_in(&v, 0, v.len(), "toggle-all"))
}

/// The key of a `list-keys` line: the first word after `-T prefix`.
pub open spec fn prefix_key_spec(line: Seq<char>) -> Option<Seq<char>> {
    match find_str(line, "-T prefix"@) {
        None => None,
        Some(i) => {
            let ws = words(trim(line.skip(i as int + "-T prefix"@.len())), false);
            if ws.len() > 0 {
                Some(ws[0])
            } else {
                None
            }
        },
    }
}

/// `bind-key -T prefix e run-shell "..."` → `e`.
pub fn prefix_key(line: &str) -> (r: Option<&str>)
    ensures
        crate::machine::opt_view(r) == prefix_key_spec(line@),
{
    let v = chars_of(line);
    assert(v@.subrange(0, v.len() as int) =~= v@);
    let i = match find_str_in(&v, 0, v.len(), "-T prefix") {
        Some(i) => i,
        None => return None,
    };
    let n = "-T prefix".unicode_len();
    assert(v@.skip(i + n) =~= v@.subrange(i + n, v.len() as int));
    let (a, b) = trim_range(&v, i + n, v.len());
    let w = crate::text::sub_vec(&v, a, b);
    let spans = word_spans(&w, false);
    if spans.len() == 0 {
        return None;
    }
    let s = spans[0].start;
    let e = spans[0].end;
    assert(w@.subrange(s as int, e as int) =~= v@.subrange(a + s, a + e));
    Some(line.substring_char(a + s, a + e))
}

pub open spec fn list_keys_args() -> Seq<Seq<char>> {
    seq!["list-keys"@, "-T"@, "prefix"@]
}

pub open spec fn unbind_args(key: Seq<char>) -> Seq<Seq<char>> {
    seq!["unbind-key"@, "-T"@, "prefix"@, key]
}

/// The unbinds owed to a `list-keys` listing: one per legacy line whose key
/// can be read, in order.
pub open spec fn legacy_unbinds(ls: Seq<Seq<char>>) -> Seq<Seq<Seq<char>>>
    decreases ls.len(),
{
    if ls.len() == 0 {
        seq![]
    } else {
        let rest = legacy_unbinds(ls.drop_last());
        if is_legacy_spec(ls.last()) {
            match prefix_key_spec(ls.last()) {
                Some(k) => rest.push(unbind_args(k)),
                None => rest,
            }
        } else {
            rest
        }
    }
}

/// Unbind what older installs left in the prefix table.
pub fn drop_legacy_bindings<R: TmuxRunner>(runner: &mut Tmux<R>)
    ensures
        ({
            let b = old(runner).calls();
            let a = final(runner).calls();
            &&& a.len() > b.len()
            &&& a.subrange(0, b.len() as int) == b
            &&& a[b.len() as int].args == list_keys_args()
            &&& match a[b.len() as int].reply {
                None => a.len() == b.len() + 1,
                Some(out) => call_args(a.skip(b.len() as int + 1)) == legacy_unbinds(lines(out)),
            }
        }),
{
    let ghost b = runner.calls();
    let args = ["list-keys", "-T", "prefix"];
    assert(argv(args@) =~= list_keys_args());
    let listing = match run_tmux(runner, &args) {
        Some(out) => out,
        None => {
            assert(runner.calls().subrange(0, b.len() as int) =~= b);
            return;
        },
    };
    let ghost m = runner.calls();
    assert(m.subrange(0, b.len() as int) =~= b);
    let v = chars_of(listing.as_str());
    let ranges = crate::text::line_ranges(&v);
    let ghost ls = crate::text::ranges_text(v@, ranges@);
    let mut i: usize = 0;
    assert(call_args(m.skip(b.len() as int + 1)) =~= legacy_unbinds(ls.take(0)));
    while i < ranges.len()
        invariant
            i <= ranges.len(),
            ls == crate::text::ranges_text(v@, ranges@),
            ls == lines(v@),
            crate::text::ranges_valid(v@, ranges@),
            m.len() == b.len() + 1,
            runner.calls().len() >= m.len(),
            runner.calls().subrange(0, m.len() as int) == m,
            call_args(runner.calls().skip(b.len() as int + 1)) == legacy_unbinds(ls.take(i as int)),
        decreases ranges.len() - i,
    {
        let s = ranges[i].start;
        let e = ranges[i].end;
        assert(ls.take(i + 1).drop_last() =~= ls.take(i as int));
        assert(ls.take(i + 1).last() == v@.subrange(s as int, e as int));
        let line = string_of_range(&v, s, e);
        if is_legacy_prefix_binding(line.as_str()) {
            if let Some(key) = prefix_key(line.as_str()) {
                let unbind = ["unbind-key", "-T", "prefix", key];
                assert(argv(unbind@) =~= unbind_args(key@));
                let ghost before = runner.calls();
                let _ = run_tmux(runner, &unbind);
                assert(runner.calls().subrange(0, m.len() as int) =~= before.subrange(
                    0,
                    m.len() as int,
                ));
                assert(runner.calls().skip(b.len() as int + 1) =~= before.skip(b.len() as int + 1).push(
                    runner.calls().last(),
                ));
                assert(call_args(runner.calls().skip(b.len() as int + 1)) =~= call_args(
                    before.skip(b.len() as int + 1),
                ).push(unbind_args(key@)));
            }
        }
        i = i + 1;
    }
    assert(ls.take(ranges.len() as int) =~= ls);
    assert(runner.calls()[b.len() as int] == m[b.len() as int]);
}

// ───────────────────────────── legacy hooks ─────────────────────────────

pub open spec fn show_hooks_args(hook: Seq<char>) -> Seq<Seq<char>> {
    seq!["show-hooks"@, "-g"@, hook]
}

pub open spec fn unset_hook_args(hook: Seq<char>) -> Seq<Seq<char>> {
    seq!["set-hook"@, "-gu"@, hook]
}

/// `after` is `before` with the check of one hook, and its removal when an
/// older sidebar installed it.
pub open spec fn hook_dropped(before: Seq<TmuxCall>, after: Seq<TmuxCall>, hook: Seq<char>) -> bool {
    &&& after.len() > before.len()
    &&& after.subrange(0, before.len() as int) == before
    &&& after[before.len() as int].args == show_hooks_args(hook)
    &&& if after[before.len() as int].reply matches Some(body) && contains_str(
        body,
        "agent_sidebar"@,
    ) {
        after.len() == before.len() + 2 && after[before.len() as int + 1].args == unset_hook_args(hook)
    } else {
        after.len() == before.len() + 1
    }
}

/// Remove `hook` when an older sidebar installed it.
pub fn drop_legacy_hook<R: TmuxRunner>(runner: &mut Tmux<R>, hook: &str)
    ensures
        hook_dropped(old(runner).calls(), final(runner).calls(), hook@),
{
    let ghost b = runner.calls();
    let args = ["show-hooks", "-g", hook];
    assert(argv(args@) =~= show_hooks_args(hook@));
    let body = run_tmux(runner, &args);
    let ghost m = runner.calls();
    assert(m.subrange(0, b.len() as int) =~= b);
    if let Some(text) = body {
        let v = chars_of(text.as_str());
        assert(v@.subrange(0, v.len() as int) =~= v@);
        if contains_str_in(&v, 0, v.len(), "agent_sidebar") {
            let unset = ["set-hook", "-gu", hook];
            assert(argv(unset@) =~= unset_hook_args(hook@));
            let _ = run_tmux(runner, &unset);
            assert(runner.calls().subrange(0, b.len() as int) =~= b);
            assert(runner.calls()[b.len() as int] == m[b.len() as int]);
        }
    }
}

/// Remove the `after-new-window` and `pane-exited` hooks older sidebars
/// installed.
pub fn drop_legacy_hooks<R: TmuxRunner>(runner: &mut Tmux<R>)
    ensures
        exists|mid: Seq<TmuxCall>|
            hook_dropped(old(runner).calls(), mid, "after-new-window"@) && hook_dropped(
                mid,
                final(runner).calls(),
                "pane-exited"@,
            ),
{
    drop_legacy_hook(runner, "after-new-window");
    let ghost mid = runner.calls();
    drop_legacy_hook(runner, "pane-exited");
    assert(hook_dropped(mid, runner.calls(), "pane-exited"@));
}

// ───────────────────────────── install ─────────────────────────────

pub open spec fn set_hook_args(hook: Seq<char>, command: Seq<char>) -> Seq<Seq<char>> {
    seq!["set-hook"@, "-g"@, hook, command]
}

/// The layout and key defaults, each set only where the option is unset.
fn set_defaults<R: TmuxRunner>(runner: &mut Tmux<R>)
    ensures
        extends(old(runner).calls(), final(runner).calls()),
{
    let ghost b = runner.calls();
    proof {
        lemma_extends_refl(b);
    }
    set_default(runner, SIDEBAR_WIDTH, "15%");
    let ghost c1 = runner.calls();
    set_default(runner, SIDEBAR_POSITION, "left");
    proof {
        lemma_extends_trans(b, c1, runner.calls());
    }
    let ghost c2 = runner.calls();
    set_default(runner, SIDEBAR_BOTTOM_HEIGHT, "20");
    proof {
        lemma_extends_trans(b, c2, runner.calls());
    }
    let ghost c3 = runner.calls();
    set_default(runner, AUTO_CREATE, "on");
    proof {
        lemma_extends_trans(b, c3, runner.calls());
    }
    let ghost c4 = runner.calls();
    set_default(runner, TOGGLE_KEY, "e");
    proof {
        lemma_extends_trans(b, c4, runner.calls());
    }
    let ghost c5 = runner.calls();
    set_default(runner, CLOSE_KEY, "q");
    proof {
        lemma_extends_trans(b, c5, runner.calls());
    }
}

/// Bind the toggle and close keys (`e` and `q` unless configured).
fn bind_keys<R: TmuxRunner>(runner: &mut Tmux<R>, bin: &str)
    ensures
        extends(old(runner).calls(), final(runner).calls()),
{
    let ghost b = runner.calls();
    let key = match option(runner, TOGGLE_KEY) {
        Some(k) => k,
        None => "e".to_owned(),
    };
    let ghost c1 = runner.calls();
    proof {
        lemma_one_more_extends(b, c1, show_option_args(TOGGLE_KEY@));
    }
    let close_key = match option(runner, CLOSE_KEY) {
        Some(k) => k,
        None => "q".to_owned(),
    };
    let ghost c2 = runner.calls();
    proof {
        lemma_one_more_extends(c1, c2, show_option_args(CLOSE_KEY@));
        lemma_extends_trans(b, c1, c2);
    }
    let toggle = toggle_payload(bin);
    bind_run(runner, key.as_str(), toggle.as_str());
    let ghost c3 = runner.calls();
    proof {
        lemma_one_more_extends(c2, c3, bind_args(key@, toggle@));
        lemma_extends_trans(b, c2, c3);
    }
    let close = close_payload(bin);
    bind_run(runner, close_key.as_str(), close.as_str());
    proof {
        lemma_one_more_extends(c3, runner.calls(), bind_args(close_key@, close@));
        lemma_extends_trans(b, c3, runner.calls());
    }
}

/// The auto-create hook unless it is switched `off`, then the `pane-exited`
/// hook.
fn install_hooks<R: TmuxRunner>(runner: &mut Tmux<R>)
    ensures
        extends(old(runner).calls(), final(runner).calls()),
        final(runner).calls().len() > old(runner).calls().len(),
        final(runner).calls().last().args == set_hook_args("pane-exited"@, PANE_EXITED@),
{
    let ghost b = runner.calls();
    let auto = option(runner, AUTO_CREATE);
    let ghost c1 = runner.calls();
    proof {
        lemma_one_more_extends(b, c1, show_option_args(AUTO_CREATE@));
    }
    let off = match &auto {
        Some(value) => {
            let v = chars_of(value.as_str());
            crate::text::vec_eq(&v, "off")
        },
        None => false,
    };
    if !off {
        let hook = ["set-hook", "-g", "after-new-window", AFTER_NEW_WINDOW];
        let _ = run_tmux(runner, &hook);
        proof {
            lemma_one_more_extends(c1, runner.calls(), argv(hook@));
            lemma_extends_trans(b, c1, runner.calls());
        }
    }
    let ghost c2 = runner.calls();
    let exited = ["set-hook", "-g", "pane-exited", PANE_EXITED];
    assert(argv(exited@) =~= set_hook_args("pane-exited"@, PANE_EXITED@));
    let _ = run_tmux(runner, &exited);
    proof {
        lemma_one_more_extends(c2, runner.calls(), set_hook_args("pane-exited"@, PANE_EXITED@));
        lemma_extends_trans(b, c2, runner.calls());
    }
}

/// Wire this tmux server to the helper at `bin`; `None` (no helper found)
/// leaves the server as it was. Fail-open: always 0.
///
/// Records the helper, sets the option defaults, binds the toggle and close
/// keys, drops legacy bindings and hooks, installs the auto-create hook
/// unless it is switched `off`, and last the `pane-exited` hook.
pub fn install<R: TmuxRunner>(runner: &mut Tmux<R>, bin: Option<&str>) -> (code: i32)
    ensures
        code == 0,
        bin is None ==> final(runner).calls() == old(runner).calls(),
        bin matches Some(path) ==> ({
            let b = old(runner).calls();
            let a = final(runner).calls();
            &&& a.len() > b.len() + 1
            &&& a.subrange(0, b.len() as int) == b
            &&& a[b.len() as int].args == set_option_args(SIDEBAR_BIN@, path@)
            &&& a.last().args == set_hook_args("pane-exited"@, PANE_EXITED@)
        }),
{
    let bin = match bin {
        Some(b) => b,
        None => return 0,
    };
    let ghost b0 = runner.calls();
    let args = ["set", "-g", SIDEBAR_BIN, bin];
    assert(argv(args@) =~= set_option_args(SIDEBAR_BIN@, bin@));
    let _ = run_tmux(runner, &args);
    let ghost b1 = runner.calls();
    proof {
        lemma_one_more_extends(b0, b1, set_option_args(SIDEBAR_BIN@, bin@));
    }
    set_defaults(runner);
    let ghost c1 = runner.calls();
    bind_keys(runner, bin);
    let ghost c2 = runner.calls();
    proof {
        lemma_extends_trans(b1, c1, c2);
    }
    drop_legacy_bindings(runner);
    let ghost c3 = runner.calls();
    proof {
        lemma_extends_trans(b1, c2, c3);
    }
    drop_legacy_hooks(runner);
    let ghost c4 = runner.calls();
    proof {
        let mid = choose|mid: Seq<TmuxCall>|
            hook_dropped(c3, mid, "after-new-window"@) && hook_dropped(mid, c4, "pane-exited"@);
        lemma_extends_trans(c3, mid, c4);
        lemma_extends_trans(b1, c3, c4);
    }
    install_hooks(runner);
    proof {
        let a = runner.calls();
        lemma_extends_trans(b1, c4, a);
        lemma_extends_trans(b0, b1, a);
        assert(a.subrange(0, b1.len() as int)[b0.len() as int] == a[b0.len() as int]);
    }
    0
}

} // verus!
