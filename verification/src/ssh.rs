//! Panes that hold an ssh session, and which machine each one reaches.
//!
//! A job on another machine has no pane here: its agent's terminal is on that
//! machine. What is here is the session the human watches it through, the pane
//! running `ssh`. That pane is a route to a *machine*, not to a job: every job
//! on that machine resolves to the same pane.
//!
//! A remote job has no identity to compare, only two names: the alias its
//! producer reported and the destination the human typed. [`host_score`]
//! ranks how well those two agree and never invents a match out of a shared
//! first letter.
use vstd::prelude::*;

use crate::machine::opt_view;
use crate::text::{
    after_last, after_last_in, before_first, before_first_in, chars_of, eq_ic, is_ws, range_eq,
    range_eq_ic, spans_text, trim, trim_bounds, word_spans, words,
};

verus! {

// ───────────────────────────── clients ─────────────────────────────

/// Whether a command name (the part after the last `/`) is a remote-shell
/// client.
pub open spec fn is_client_name(name: Seq<char>) -> bool {
    name == "ssh"@ || name == "autossh"@ || name == "mosh"@ || name == "mosh-client"@
}

/// Whether a whitespace-free token names a remote-shell client.
pub open spec fn is_client_token(token: Seq<char>) -> bool {
    is_client_name(after_last(token, '/'))
}

/// What [`is_remote_client`] answers.
pub open spec fn is_remote_client_spec(command: Seq<char>) -> bool {
    is_client_token(trim(command))
}

/// Whether `v[from..to]` names a remote-shell client.
fn client_in(v: &Vec<char>, from: usize, to: usize) -> (b: bool)
    requires
        from <= to <= v.len(),
    ensures
        b == is_client_token(v@.subrange(from as int, to as int)),
{
    let k = after_last_in(v, from, to, '/');
    range_eq(v, k, to, "ssh") || range_eq(v, k, to, "autossh") || range_eq(v, k, to, "mosh")
        || range_eq(v, k, to, "mosh-client")
}

/// Whether a pane's foreground command is a remote-shell client.
///
/// `pane_current_command` is the pane's foreground process, which stays `ssh`
/// no matter what runs on the far side, a remote tmux included.
pub fn is_remote_client(command: &str) -> (b: bool)
    ensures
        b == is_remote_client_spec(command@),
{
    let v = chars_of(command);
    let (a, b) = trim_bounds(&v);
    client_in(&v, a, b)
}

// ───────────────────────────── destinations ─────────────────────────────

/// Short ssh options that consume the next argument (`bcDeEFIiJLlmOopQRSWw`).
pub open spec fn takes_value(c: char) -> bool {
    c == 'b' || c == 'c' || c == 'D' || c == 'e' || c == 'E' || c == 'F' || c == 'I' || c == 'i'
        || c == 'J' || c == 'L' || c == 'l' || c == 'm' || c == 'O' || c == 'o' || c == 'p'
        || c == 'Q' || c == 'R' || c == 'S' || c == 'W' || c == 'w'
}

fn char_takes_value(c: char) -> (b: bool)
    ensures
        b == takes_value(c),
{
    c == 'b' || c == 'c' || c == 'D' || c == 'e' || c == 'E' || c == 'F' || c == 'I' || c == 'i'
        || c == 'J' || c == 'L' || c == 'l' || c == 'm' || c == 'O' || c == 'o' || c == 'p'
        || c == 'Q' || c == 'R' || c == 'S' || c == 'W' || c == 'w'
}

/// The flag cluster of `-4vN`, or `None` for a token that is not a short flag
/// (`--long` options and a lone `-` are not).
pub open spec fn short_flags(token: Seq<char>) -> Option<Seq<char>> {
    if token.len() >= 2 && token[0] == '-' && token[1] == '-' {
        None
    } else if token == seq!['-'] {
        None
    } else if token.len() > 0 && token[0] == '-' {
        Some(token.drop_first())
    } else {
        None
    }
}

/// Whether a flag cluster spends the token after it: read left to right, the
/// first flag that takes a value takes the rest of the cluster (`-p2222`), or
/// the next token when the cluster ends there (`-vp 2222`).
pub open spec fn takes_next_token(flags: Seq<char>) -> bool
    decreases flags.len(),
{
    if flags.len() == 0 {
        false
    } else if takes_value(flags[0]) {
        flags.len() == 1
    } else {
        takes_next_token(flags.drop_first())
    }
}

/// Whether a cluster asks for a connection with no remote terminal (`-N`);
/// past a value-taking flag the characters are that value, not flags.
pub open spec fn is_tunnel(flags: Seq<char>) -> bool
    decreases flags.len(),
{
    if flags.len() == 0 {
        false
    } else if takes_value(flags[0]) {
        false
    } else if flags[0] == 'N' {
        true
    } else {
        is_tunnel(flags.drop_first())
    }
}

pub open spec fn ssh_scheme() -> Seq<char> {
    seq!['s', 's', 'h', ':', '/', '/']
}

/// `s` with every leading `ssh://` removed.
pub open spec fn strip_scheme(s: Seq<char>) -> Seq<char>
    decreases s.len(),
{
    if s.len() >= 6 && s.take(6) == ssh_scheme() {
        strip_scheme(s.skip(6))
    } else {
        s
    }
}

/// The host a destination token names: `user@host`, `ssh://user@host:22` and
/// `host` all name `host`.
pub open spec fn destination_host(token: Seq<char>) -> Option<Seq<char>> {
    let host = before_first(after_last(strip_scheme(token), '@'), ':');
    if host.len() > 0 {
        Some(host)
    } else {
        None
    }
}

/// The destination among the arguments after the client: the first token that
/// is not a flag nor a flag's value, unless a tunnel flag comes first.
pub open spec fn scan_destination(tokens: Seq<Seq<char>>, skip_value: bool) -> Option<Seq<char>>
    decreases tokens.len(),
{
    if tokens.len() == 0 {
        None
    } else if skip_value {
        scan_destination(tokens.drop_first(), false)
    } else {
        match short_flags(tokens[0]) {
            None => destination_host(tokens[0]),
            Some(flags) => if is_tunnel(flags) {
                None
            } else {
                scan_destination(tokens.drop_first(), takes_next_token(flags))
            },
        }
    }
}

/// What [`parse_destination`] answers for one `ps` argument line.
pub open spec fn parse_destination_spec(args: Seq<char>) -> Option<Seq<char>> {
    let tokens = words(args, false);
    if tokens.len() == 0 || !is_client_token(tokens[0]) {
        None
    } else {
        scan_destination(tokens.drop_first(), false)
    }
}

fn takes_next_in(v: &Vec<char>, from: usize, to: usize) -> (b: bool)
    requires
        from <= to <= v.len(),
    ensures
        b == takes_next_token(v@.subrange(from as int, to as int)),
{
    let mut i = from;
    while i < to
        invariant
            from <= i <= to <= v.len(),
            takes_next_token(v@.subrange(from as int, to as int)) == takes_next_token(
                v@.subrange(i as int, to as int),
            ),
        decreases to - i,
    {
        assert(v@.subrange(i as int, to as int).drop_first() =~= v@.subrange(i + 1, to as int));
        if char_takes_value(v[i]) {
            return i + 1 == to;
        }
        i = i + 1;
    }
    false
}

fn is_tunnel_in(v: &Vec<char>, from: usize, to: usize) -> (b: bool)
    requires
        from <= to <= v.len(),
    ensures
        b == is_tunnel(v@.subrange(from as int, to as int)),
{
    let mut i = from;
    while i < to
        invariant
            from <= i <= to <= v.len(),
            is_tunnel(v@.subrange(from as int, to as int)) == is_tunnel(
                v@.subrange(i as int, to as int),
            ),
        decreases to - i,
    {
        assert(v@.subrange(i as int, to as int).drop_first() =~= v@.subrange(i + 1, to as int));
        let c = v[i];
        if char_takes_value(c) {
            return false;
        }
        if c == 'N' {
            return true;
        }
        i = i + 1;
    }
    false
}

/// Where the flag cluster of `v[from..to]` starts, if that token is a flag.
fn short_flags_in(v: &Vec<char>, from: usize, to: usize) -> (r: Option<usize>)
    requires
        from <= to <= v.len(),
    ensures
        match r {
            Some(f) => f == from + 1 && f <= to && short_flags(v@.subrange(from as int, to as int))
                == Some(v@.subrange(f as int, to as int)),
            None => short_flags(v@.subrange(from as int, to as int)).is_none(),
        },
{
    let ghost t = v@.subrange(from as int, to as int);
    if to - from >= 2 && v[from] == '-' && v[from + 1] == '-' {
        return None;
    }
    if to - from == 1 && v[from] == '-' {
        assert(t =~= seq!['-']);
        return None;
    }
    if to - from > 0 && v[from] == '-' {
        assert(t != seq!['-']);
        assert(t.drop_first() =~= v@.subrange(from + 1, to as int));
        Some(from + 1)
    } else {
        None
    }
}

/// The host named by `v[from..to]`, as positions in `v`.
fn destination_host_in(v: &Vec<char>, from: usize, to: usize) -> (r: Option<(usize, usize)>)
    requires
        from <= to <= v.len(),
    ensures
        match r {
            Some((a, b)) => a <= b <= v.len() && destination_host(
                v@.subrange(from as int, to as int),
            ) == Some(v@.subrange(a as int, b as int)),
            None => destination_host(v@.subrange(from as int, to as int)).is_none(),
        },
{
    proof {
        reveal_strlit("ssh://");
    }
    let mut a = from;
    while to - a >= 6 && range_eq(v, a, a + 6, "ssh://")
        invariant
            from <= a <= to <= v.len(),
            "ssh://"@ == ssh_scheme(),
            strip_scheme(v@.subrange(from as int, to as int)) == strip_scheme(
                v@.subrange(a as int, to as int),
            ),
        decreases to - a,
    {
        assert(v@.subrange(a as int, to as int).take(6) =~= v@.subrange(a as int, a + 6));
        assert(v@.subrange(a as int, to as int).skip(6) =~= v@.subrange(a + 6, to as int));
        a = a + 6;
    }
    proof {
        let s = v@.subrange(a as int, to as int);
        if s.len() >= 6 {
            assert(s.take(6) =~= v@.subrange(a as int, a + 6));
        }
    }
    let k = after_last_in(v, a, to, '@');
    let e = before_first_in(v, k, to, ':');
    if e > k {
        Some((k, e))
    } else {
        None
    }
}

/// The destination in one `ps` argument line, or `None` if that line is not a
/// session this surface can send anyone back to.
///
/// Tunnels are refused on purpose: `ssh -N` has no remote terminal.
pub fn parse_destination(args: &str) -> (r: Option<&str>)
    ensures
        opt_view(r) == parse_destination_spec(args@),
{
    let v = chars_of(args);
    let spans = word_spans(&v, false);
    let ghost tokens = spans_text(v@, spans@);
    if spans.len() == 0 {
        return None;
    }
    if !client_in(&v, spans[0].start, spans[0].end) {
        return None;
    }
    let mut skip_value = false;
    let mut i: usize = 1;
    assert(tokens.drop_first() =~= tokens.skip(1));
    while i < spans.len()
        invariant
            1 <= i <= spans.len(),
            v@ == args@,
            tokens == spans_text(v@, spans@),
            tokens == words(v@, false),
            crate::text::spans_valid(v@, spans@),
            parse_destination_spec(args@) == scan_destination(tokens.skip(i as int), skip_value),
        decreases spans.len() - i,
    {
        let start = spans[i].start;
        let end = spans[i].end;
        assert(tokens.skip(i as int).drop_first() =~= tokens.skip(i + 1));
        assert(tokens.skip(i as int)[0] == v@.subrange(start as int, end as int));
        if skip_value {
            skip_value = false;
        } else {
            match short_flags_in(&v, start, end) {
                None => {
                    return match destination_host_in(&v, start, end) {
                        Some((a, b)) => Some(args.substring_char(a, b)),
                        None => None,
                    };
                },
                Some(f) => {
                    if is_tunnel_in(&v, f, end) {
                        return None;
                    }
                    skip_value = takes_next_in(&v, f, end);
                },
            }
        }
        i = i + 1;
    }
    assert(tokens.skip(i as int) =~= Seq::<Seq<char>>::empty());
    None
}

// ───────────────────────────── matching names ─────────────────────────────

/// Shortest name that may be prefix-matched, so `a` cannot stand for
/// `arrhenius1`.
pub const MIN_PREFIX: usize = 3;

/// Whether two names agree, ignoring ASCII case, over the whole of the
/// shorter one, which is at least [`MIN_PREFIX`] characters long. Compared by
/// character, so a name that is not ASCII is compared, never sliced.
pub open spec fn shares_prefix(left: Seq<char>, right: Seq<char>) -> bool {
    let n = if left.len() <= right.len() {
        left.len()
    } else {
        right.len()
    };
    n >= MIN_PREFIX && eq_ic(left.take(n as int), right.take(n as int))
}

/// How well one hostname answers to `alias`: 3 for the same name, 2 for the
/// same first label, 1 for a shared prefix, `None` for unrelated names.
pub open spec fn name_score(host: Seq<char>, alias: Seq<char>) -> Option<u8> {
    let h = trim(host);
    let a = trim(alias);
    if h.len() == 0 || a.len() == 0 {
        None
    } else if eq_ic(h, a) {
        Some(3)
    } else if eq_ic(before_first(h, '.'), a) {
        Some(2)
    } else if shares_prefix(before_first(h, '.'), a) {
        Some(1)
    } else {
        None
    }
}

/// The better of two scores; no score is worse than any.
pub open spec fn best_score(a: Option<u8>, b: Option<u8>) -> Option<u8> {
    match (a, b) {
        (None, _) => b,
        (_, None) => a,
        (Some(x), Some(y)) => if x >= y {
            a
        } else {
            b
        },
    }
}

/// What [`host_score`] answers: the better of the destination's own score and
/// that of the `HostName` the ssh config gives it.
pub open spec fn host_score_spec(
    destination: Seq<char>,
    alias: Seq<char>,
    hosts: Seq<(Seq<char>, Seq<char>)>,
) -> Option<u8> {
    best_score(
        name_score(destination, alias),
        match host_name_of(hosts, trim(destination)) {
            Some(host_name) => name_score(host_name, alias),
            None => None,
        },
    )
}

fn shares_prefix_in(l: &Vec<char>, lf: usize, lt: usize, r: &Vec<char>, rf: usize, rt: usize) -> (b: bool)
    requires
        lf <= lt <= l.len(),
        rf <= rt <= r.len(),
    ensures
        b == shares_prefix(l@.subrange(lf as int, lt as int), r@.subrange(rf as int, rt as int)),
{
    let n = if lt - lf <= rt - rf {
        lt - lf
    } else {
        rt - rf
    };
    if n < MIN_PREFIX {
        return false;
    }
    assert(l@.subrange(lf as int, lt as int).take(n as int) =~= l@.subrange(lf as int, lf + n));
    assert(r@.subrange(rf as int, rt as int).take(n as int) =~= r@.subrange(rf as int, rf + n));
    range_eq_ic(l, lf, lf + n, r, rf, rf + n)
}

fn name_score_exec(host: &str, alias: &str) -> (r: Option<u8>)
    ensures
        r == name_score(host@, alias@),
{
    let h = chars_of(host);
    let a = chars_of(alias);
    let (hs, he) = trim_bounds(&h);
    let (as_, ae) = trim_bounds(&a);
    if hs == he || as_ == ae {
        return None;
    }
    if range_eq_ic(&h, hs, he, &a, as_, ae) {
        return Some(3);
    }
    let le = before_first_in(&h, hs, he, '.');
    if range_eq_ic(&h, hs, le, &a, as_, ae) {
        return Some(2);
    }
    if shares_prefix_in(&h, hs, le, &a, as_, ae) {
        Some(1)
    } else {
        None
    }
}

fn best_score_exec(a: Option<u8>, b: Option<u8>) -> (r: Option<u8>)
    ensures
        r == best_score(a, b),
{
    match (a, b) {
        (None, _) => b,
        (_, None) => a,
        (Some(x), Some(y)) => if x >= y {
            a
        } else {
            b
        },
    }
}

/// How well an ssh destination names the machine `alias`, best-first, or
/// `None` when the two are unrelated.
///
/// A producer reports its hostname (`arrhenius1`) while the human types an
/// `~/.ssh/config` Host (`Arrhenius`); `hosts` resolves the latter to its
/// `HostName`, so a config that renames a machine entirely still matches.
pub fn host_score(destination: &str, alias: &str, hosts: &SshHosts) -> (r: Option<u8>)
    ensures
        r == host_score_spec(destination@, alias@, hosts@),
{
    let direct = name_score_exec(destination, alias);
    let configured = match hosts.host_name(destination) {
        Some(host_name) => name_score_exec(host_name, alias),
        None => None,
    };
    best_score_exec(direct, configured)
}

// ───────────────────────────── the ssh config ─────────────────────────────

/// The `HostName` of the first entry whose Host is `host`, ignoring ASCII case.
pub open spec fn host_name_of(entries: Seq<(Seq<char>, Seq<char>)>, host: Seq<char>) -> Option<
    Seq<char>,
>
    decreases entries.len(),
{
    if entries.len() == 0 {
        None
    } else if eq_ic(entries[0].0, host) {
        Some(entries[0].1)
    } else {
        host_name_of(entries.drop_first(), host)
    }
}

/// `Host` → `HostName` from the user's `~/.ssh/config`: literal Host names
/// only. Patterns, negations and `Include` are skipped rather than
/// half-implemented; an unresolved Host falls back to matching on the name
/// the human typed.
pub struct SshHosts {
    entries: Vec<(String, String)>,
}

/// The views of `(Host, HostName)` pairs.
pub open spec fn entry_views(entries: Seq<(String, String)>) -> Seq<(Seq<char>, Seq<char>)> {
    entries.map_values(|e: (String, String)| (e.0@, e.1@))
}

impl View for SshHosts {
    type V = Seq<(Seq<char>, Seq<char>)>;

    closed spec fn view(&self) -> Seq<(Seq<char>, Seq<char>)> {
        entry_views(self.entries@)
    }
}

impl Default for SshHosts {
    fn default() -> (r: Self)
        ensures
            r@ == Seq::<(Seq<char>, Seq<char>)>::empty(),
    {
        let r = SshHosts { entries: Vec::new() };
        assert(r@ =~= Seq::<(Seq<char>, Seq<char>)>::empty());
        r
    }
}

impl SshHosts {
    /// The `HostName` configured for `host`, if the config names one.
    pub fn host_name(&self, host: &str) -> (r: Option<&str>)
        ensures
            opt_view(r) == host_name_of(self@, trim(host@)),
    {
        let v = chars_of(host);
        let (a, b) = trim_bounds(&v);
        let ghost es = self@;
        let mut i: usize = 0;
        assert(es.skip(0) =~= es);
        while i < self.entries.len()
            invariant
                i <= self.entries.len(),
                es == self@,
                es.len() == self.entries.len(),
                trim(host@) == v@.subrange(a as int, b as int),
                a <= b <= v.len(),
                host_name_of(es, trim(host@)) == host_name_of(es.skip(i as int), trim(host@)),
            decreases self.entries.len() - i,
        {
            let name = chars_of(self.entries[i].0.as_str());
            assert(es.skip(i as int).drop_first() =~= es.skip(i + 1));
            assert(es.skip(i as int)[0] == es[i as int]);
            assert(name@.subrange(0, name.len() as int) =~= name@);
            if range_eq_ic(&name, 0, name.len(), &v, a, b) {
                return Some(self.entries[i].1.as_str());
            }
            i = i + 1;
        }
        assert(es.skip(i as int) =~= Seq::<(Seq<char>, Seq<char>)>::empty());
        None
    }
}

// ───────────────────────────── reading the config ─────────────────────────────

/// Where a directive's keyword ends: at whitespace or `=`.
pub open spec fn is_cut(c: char) -> bool {
    is_ws(c) || c == '='
}

/// Position of the first character that ends a keyword.
pub open spec fn find_cut(s: Seq<char>) -> Option<nat>
    decreases s.len(),
{
    if s.len() == 0 {
        None
    } else if is_cut(s[0]) {
        Some(0)
    } else {
        match find_cut(s.drop_first()) {
            Some(i) => Some(i + 1),
            None => None,
        }
    }
}

/// `s` without its leading `=`, spaces and tabs.
pub open spec fn skip_assign(s: Seq<char>) -> Seq<char>
    decreases s.len(),
{
    if s.len() > 0 && (s[0] == '=' || s[0] == ' ' || s[0] == '\t') {
        skip_assign(s.drop_first())
    } else {
        s
    }
}

/// A directive as keyword and value: `Host foo` and `Host=foo` are one
/// directive. `None` when either part is empty.
pub open spec fn split_directive(line: Seq<char>) -> Option<(Seq<char>, Seq<char>)> {
    match find_cut(line) {
        None => None,
        Some(i) => {
            let keyword = line.take(i as int);
            let value = trim(skip_assign(line.skip(i as int + 1)));
            if keyword.len() > 0 && value.len() > 0 {
                Some((keyword, value))
            } else {
                None
            }
        },
    }
}

/// Whether a Host name is a pattern or a negation rather than a literal name.
pub open spec fn is_pattern(host: Seq<char>) -> bool {
    host.contains('*') || host.contains('?') || host.contains('!')
}

/// The literal names among the names of a `Host` line, in order.
pub open spec fn literal_hosts(names: Seq<Seq<char>>) -> Seq<Seq<char>>
    decreases names.len(),
{
    if names.len() == 0 {
        seq![]
    } else if is_pattern(names.last()) {
        literal_hosts(names.drop_last())
    } else {
        literal_hosts(names.drop_last()).push(names.last())
    }
}

/// Whether some entry already answers for `host` (compared exactly).
pub open spec fn has_host(entries: Seq<(Seq<char>, Seq<char>)>, host: Seq<char>) -> bool {
    exists|j: int| 0 <= j < entries.len() && #[trigger] entries[j].0 == host
}

/// A `HostName` line gives each current Host that has none yet this name.
pub open spec fn add_host_names(
    entries: Seq<(Seq<char>, Seq<char>)>,
    current: Seq<Seq<char>>,
    host_name: Seq<char>,
) -> Seq<(Seq<char>, Seq<char>)>
    decreases current.len(),
{
    if current.len() == 0 {
        entries
    } else {
        let before = add_host_names(entries, current.drop_last(), host_name);
        if has_host(before, current.last()) {
            before
        } else {
            before.push((current.last(), host_name))
        }
    }
}

/// What reading the config has gathered: the entries so far, and the Hosts
/// the directives under the latest `Host` line apply to.
pub struct ConfigState {
    pub entries: Seq<(Seq<char>, Seq<char>)>,
    pub current: Seq<Seq<char>>,
}

/// One line of the config read into the state.
pub open spec fn config_step(st: ConfigState, raw: Seq<char>) -> ConfigState {
    let line = trim(raw);
    if line.len() == 0 || line[0] == '#' {
        st
    } else {
        match split_directive(line) {
            None => st,
            Some((keyword, value)) => if eq_ic(keyword, "host"@) {
                ConfigState { entries: st.entries, current: literal_hosts(words(value, false)) }
            } else if eq_ic(keyword, "hostname"@) {
                ConfigState {
                    entries: add_host_names(st.entries, st.current, value),
                    current: st.current,
                }
            } else {
                st
            },
        }
    }
}

/// The lines of the config read in order.
pub open spec fn config_fold(lines: Seq<Seq<char>>, st: ConfigState) -> ConfigState
    decreases lines.len(),
{
    if lines.len() == 0 {
        st
    } else {
        config_fold(lines.drop_first(), config_step(st, lines[0]))
    }
}

/// The entries a config text yields.
pub open spec fn parse_config(text: Seq<char>) -> Seq<(Seq<char>, Seq<char>)> {
    config_fold(crate::text::lines(text), ConfigState { entries: seq![], current: seq![] }).entries
}

/// The views of a list of strings.
pub open spec fn string_views(names: Seq<String>) -> Seq<Seq<char>> {
    names.map_values(|s: String| s@)
}

proof fn lemma_find_cut(s: Seq<char>, k: int)
    requires
        0 <= k <= s.len(),
        forall|m: int| 0 <= m < k ==> !is_cut(#[trigger] s[m]),
        k == s.len() || is_cut(s[k]),
    ensures
        find_cut(s) == (if k == s.len() {
            None::<nat>
        } else {
            Some(k as nat)
        }),
    decreases k,
{
    if k > 0 {
        assert forall|m: int| 0 <= m < k - 1 implies !is_cut(#[trigger] s.drop_first()[m]) by {
            assert(s.drop_first()[m] == s[m + 1]);
        }
        lemma_find_cut(s.drop_first(), k - 1);
    }
}

/// The keyword and value of a directive, as positions in `v`.
fn split_directive_in(v: &Vec<char>, from: usize, to: usize) -> (r: Option<
    (usize, usize, usize, usize),
>)
    requires
        from <= to <= v.len(),
    ensures
        match r {
            Some((ks, ke, vs, ve)) => ks <= ke <= v.len() && vs <= ve <= v.len() && split_directive(
                v@.subrange(from as int, to as int),
            ) == Some((v@.subrange(ks as int, ke as int), v@.subrange(vs as int, ve as int))),
            None => split_directive(v@.subrange(from as int, to as int)).is_none(),
        },
{
    let ghost line = v@.subrange(from as int, to as int);
    let mut i = from;
    while i < to && !(crate::text::char_is_whitespace(v[i]) || v[i] == '=')
        invariant
            from <= i <= to <= v.len(),
            forall|m: int| from <= m < i ==> !is_cut(#[trigger] v@[m]),
        decreases to - i,
    {
        i = i + 1;
    }
    proof {
        assert forall|m: int| 0 <= m < i - from implies !is_cut(#[trigger] line[m]) by {
            assert(line[m] == v@[from + m]);
        }
        lemma_find_cut(line, i - from);
    }
    if i == to {
        return None;
    }
    let mut j = i + 1;
    assert(line.skip(i - from + 1) =~= v@.subrange(j as int, to as int));
    while j < to && (v[j] == '=' || v[j] == ' ' || v[j] == '\t')
        invariant
            i < j <= to <= v.len(),
            skip_assign(line.skip(i - from + 1)) == skip_assign(v@.subrange(j as int, to as int)),
        decreases to - j,
    {
        assert(v@.subrange(j as int, to as int).drop_first() =~= v@.subrange(j + 1, to as int));
        j = j + 1;
    }
    proof {
        let t = v@.subrange(j as int, to as int);
        if t.len() > 0 {
            assert(t[0] == v@[j as int]);
        }
    }
    let (vs, ve) = crate::text::trim_range(v, j, to);
    assert(line.take(i - from) =~= v@.subrange(from as int, i as int));
    if i > from && ve > vs {
        Some((from, i, vs, ve))
    } else {
        None
    }
}

/// Whether `v[from..to]` spells `lit`, ignoring ASCII case.
fn range_eq_ic_str(v: &Vec<char>, from: usize, to: usize, lit: &str) -> (b: bool)
    requires
        from <= to <= v.len(),
    ensures
        b == eq_ic(v@.subrange(from as int, to as int), lit@),
{
    let l = chars_of(lit);
    assert(l@.subrange(0, l.len() as int) =~= l@);
    range_eq_ic(v, from, to, &l, 0, l.len())
}

/// The literal names of a `Host` line's value `v[from..to]`.
fn literal_hosts_in(v: &Vec<char>, from: usize, to: usize) -> (r: Vec<String>)
    requires
        from <= to <= v.len(),
    ensures
        string_views(r@) == literal_hosts(words(v@.subrange(from as int, to as int), false)),
{
    let w = crate::text::sub_vec(v, from, to);
    let spans = word_spans(&w, false);
    let ghost names = spans_text(w@, spans@);
    let mut r: Vec<String> = Vec::new();
    let mut k: usize = 0;
    assert(string_views(r@) =~= literal_hosts(names.take(0)));
    while k < spans.len()
        invariant
            k <= spans.len(),
            names == spans_text(w@, spans@),
            crate::text::spans_valid(w@, spans@),
            string_views(r@) == literal_hosts(names.take(k as int)),
        decreases spans.len() - k,
    {
        let s = spans[k].start;
        let e = spans[k].end;
        assert(names.take(k + 1).drop_last() =~= names.take(k as int));
        assert(names.take(k + 1).last() == w@.subrange(s as int, e as int));
        let pattern = crate::text::contains_char(&w, s, e, '*') || crate::text::contains_char(
            &w,
            s,
            e,
            '?',
        ) || crate::text::contains_char(&w, s, e, '!');
        if !pattern {
            let ghost before = r@;
            r.push(crate::text::string_of_range(&w, s, e));
            assert(string_views(r@) =~= string_views(before).push(w@.subrange(s as int, e as int)));
        }
        k = k + 1;
    }
    assert(names.take(spans.len() as int) =~= names);
    r
}

/// Whether some entry's Host is exactly `host`.
fn has_host_exec(entries: &Vec<(String, String)>, host: &String) -> (b: bool)
    ensures
        b == has_host(entry_views(entries@), host@),
{
    let ghost es = entry_views(entries@);
    let mut j: usize = 0;
    while j < entries.len()
        invariant
            j <= entries.len(),
            es == entry_views(entries@),
            forall|m: int| 0 <= m < j ==> #[trigger] es[m].0 != host@,
        decreases entries.len() - j,
    {
        if entries[j].0 == *host {
            assert(es[j as int].0 == host@);
            return true;
        }
        j = j + 1;
    }
    false
}

/// Give each current Host that has no entry yet the `HostName` `value`.
fn add_host_names_exec(entries: &mut Vec<(String, String)>, current: &Vec<String>, value: &String)
    ensures
        entry_views(final(entries)@) == add_host_names(
            entry_views(old(entries)@),
            string_views(current@),
            value@,
        ),
{
    let ghost start = entry_views(entries@);
    let ghost cur = string_views(current@);
    let mut k: usize = 0;
    assert(cur.take(0) =~= Seq::<Seq<char>>::empty());
    while k < current.len()
        invariant
            k <= current.len(),
            cur == string_views(current@),
            entry_views(entries@) == add_host_names(start, cur.take(k as int), value@),
        decreases current.len() - k,
    {
        assert(cur.take(k + 1).drop_last() =~= cur.take(k as int));
        assert(cur.take(k + 1).last() == current@[k as int]@);
        if !has_host_exec(entries, &current[k]) {
            let ghost before = entries@;
            entries.push((current[k].clone(), value.clone()));
            assert(entry_views(entries@) =~= entry_views(before).push((current@[k as int]@, value@)));
        }
        k = k + 1;
    }
    assert(cur.take(current.len() as int) =~= cur);
}

impl SshHosts {
    /// The `Host` → `HostName` entries of a config text: for each literal
    /// Host, the first `HostName` given under a `Host` line that names it.
    pub fn parse(text: &str) -> (r: Self)
        ensures
            r@ == parse_config(text@),
    {
        let v = chars_of(text);
        let ranges = crate::text::line_ranges(&v);
        let ghost lines = crate::text::ranges_text(v@, ranges@);
        let ghost init = ConfigState { entries: seq![], current: seq![] };
        let mut entries: Vec<(String, String)> = Vec::new();
        let mut current: Vec<String> = Vec::new();
        let mut i: usize = 0;
        assert(lines.skip(0) =~= lines);
        assert(entry_views(entries@) =~= Seq::<(Seq<char>, Seq<char>)>::empty());
        assert(string_views(current@) =~= Seq::<Seq<char>>::empty());
        while i < ranges.len()
            invariant
                i <= ranges.len(),
                v@ == text@,
                lines == crate::text::ranges_text(v@, ranges@),
                lines == crate::text::lines(v@),
                crate::text::ranges_valid(v@, ranges@),
                config_fold(lines, init) == config_fold(
                    lines.skip(i as int),
                    ConfigState {
                        entries: entry_views(entries@),
                        current: string_views(current@),
                    },
                ),
            decreases ranges.len() - i,
        {
            let ghost st = ConfigState {
                entries: entry_views(entries@),
                current: string_views(current@),
            };
            let ghost raw = v@.subrange(ranges[i as int].start as int, ranges[i as int].end as int);
            assert(lines.skip(i as int).drop_first() =~= lines.skip(i + 1));
            assert(lines.skip(i as int)[0] == raw);
            let line = crate::text::sub_vec(&v, ranges[i].start, ranges[i].end);
            let (a, b) = trim_bounds(&line);
            if a < b && line[a] != '#' {
                match split_directive_in(&line, a, b) {
                    None => {},
                    Some((ks, ke, vs, ve)) => {
                        if range_eq_ic_str(&line, ks, ke, "host") {
                            current = literal_hosts_in(&line, vs, ve);
                        } else if range_eq_ic_str(&line, ks, ke, "hostname") {
                            let value = crate::text::string_of_range(&line, vs, ve);
                            add_host_names_exec(&mut entries, &current, &value);
                        }
                    },
                }
            }
            assert(ConfigState { entries: entry_views(entries@), current: string_views(current@) }
                == config_step(st, raw));
            i = i + 1;
        }
        assert(lines.skip(i as int) =~= Seq::<Seq<char>>::empty());
        SshHosts { entries }
    }
}

// ───────────────────────────── laws ─────────────────────────────

/// Entries that name each Host once, and never a pattern.
pub open spec fn entries_ok(entries: Seq<(Seq<char>, Seq<char>)>) -> bool {
    &&& forall|i: int, j: int|
        0 <= i < j < entries.len() ==> #[trigger] entries[i].0 != #[trigger] entries[j].0
    &&& forall|i: int| 0 <= i < entries.len() ==> !is_pattern(#[trigger] entries[i].0)
}

/// Host names none of which is a pattern.
pub open spec fn all_literal(names: Seq<Seq<char>>) -> bool {
    forall|k: int| 0 <= k < names.len() ==> !is_pattern(#[trigger] names[k])
}

/// What every state of reading a config keeps: no Host has two entries, and
/// no entry or current Host is a pattern.
pub open spec fn config_state_ok(st: ConfigState) -> bool {
    entries_ok(st.entries) && all_literal(st.current)
}

proof fn lemma_literal_hosts_are_literal(names: Seq<Seq<char>>)
    ensures
        all_literal(literal_hosts(names)),
    decreases names.len(),
{
    if names.len() > 0 {
        lemma_literal_hosts_are_literal(names.drop_last());
        let r = literal_hosts(names.drop_last());
        if !is_pattern(names.last()) {
            assert forall|k: int| 0 <= k < r.len() + 1 implies !is_pattern(
                #[trigger] r.push(names.last())[k],
            ) by {
                if k < r.len() {
                    assert(r.push(names.last())[k] == r[k]);
                }
            }
        }
    }
}

proof fn lemma_add_host_names_ok(
    entries: Seq<(Seq<char>, Seq<char>)>,
    current: Seq<Seq<char>>,
    host_name: Seq<char>,
)
    requires
        entries_ok(entries),
        all_literal(current),
    ensures
        entries_ok(add_host_names(entries, current, host_name)),
        add_host_names(entries, current, host_name).take(entries.len() as int) == entries,
        add_host_names(entries, current, host_name).len() >= entries.len(),
    decreases current.len(),
{
    if current.len() > 0 {
        let rest = current.drop_last();
        assert forall|k: int| 0 <= k < rest.len() implies !is_pattern(#[trigger] rest[k]) by {
            assert(rest[k] == current[k]);
        }
        lemma_add_host_names_ok(entries, rest, host_name);
        let before = add_host_names(entries, rest, host_name);
        assert(!is_pattern(current[current.len() - 1]));
        if !has_host(before, current.last()) {
            let after = before.push((current.last(), host_name));
            assert forall|i: int, j: int| 0 <= i < j < after.len() implies #[trigger] after[i].0
                != #[trigger] after[j].0 by {
                if j == before.len() {
                    assert(after[i] == before[i]);
                } else {
                    assert(after[i] == before[i]);
                    assert(after[j] == before[j]);
                }
            }
            assert forall|i: int| 0 <= i < after.len() implies !is_pattern(
                #[trigger] after[i].0,
            ) by {
                if i < before.len() {
                    assert(after[i] == before[i]);
                }
            }
            assert(after.take(entries.len() as int) =~= before.take(entries.len() as int));
        }
    } else {
        assert(entries.take(entries.len() as int) =~= entries);
    }
}

proof fn lemma_config_step_ok(st: ConfigState, raw: Seq<char>)
    requires
        config_state_ok(st),
    ensures
        config_state_ok(config_step(st, raw)),
        config_step(st, raw).entries.take(st.entries.len() as int) == st.entries,
        config_step(st, raw).entries.len() >= st.entries.len(),
{
    let line = trim(raw);
    assert(st.entries.take(st.entries.len() as int) =~= st.entries);
    if !(line.len() == 0 || line[0] == '#') {
        match split_directive(line) {
            None => {},
            Some((keyword, value)) => {
                if eq_ic(keyword, "host"@) {
                    lemma_literal_hosts_are_literal(words(value, false));
                } else if eq_ic(keyword, "hostname"@) {
                    lemma_add_host_names_ok(st.entries, st.current, value);
                }
            },
        }
    }
}

/// Reading a config only ever adds entries: an entry once read is never
/// replaced nor dropped, so the first `HostName` given for a Host wins; and
/// every state keeps [`config_state_ok`].
pub proof fn lemma_config_entries_only_grow(lines: Seq<Seq<char>>, st: ConfigState)
    requires
        config_state_ok(st),
    ensures
        config_state_ok(config_fold(lines, st)),
        config_fold(lines, st).entries.len() >= st.entries.len(),
        config_fold(lines, st).entries.take(st.entries.len() as int) == st.entries,
    decreases lines.len(),
{
    if lines.len() > 0 {
        let next = config_step(st, lines[0]);
        lemma_config_step_ok(st, lines[0]);
        lemma_config_entries_only_grow(lines.drop_first(), next);
        let out = config_fold(lines, st).entries;
        assert(out.take(st.entries.len() as int) =~= out.take(next.entries.len() as int).take(
            st.entries.len() as int,
        ));
    } else {
        assert(st.entries.take(st.entries.len() as int) =~= st.entries);
    }
}

/// A parsed config names each Host once, and never a pattern or a negation.
pub proof fn lemma_parsed_hosts_are_unique_literals(text: Seq<char>)
    ensures
        forall|i: int, j: int|
            0 <= i < j < parse_config(text).len() ==> #[trigger] parse_config(text)[i].0
                != #[trigger] parse_config(text)[j].0,
        forall|i: int|
            0 <= i < parse_config(text).len() ==> !is_pattern(#[trigger] parse_config(text)[i].0),
{
    lemma_config_entries_only_grow(
        crate::text::lines(text),
        ConfigState { entries: seq![], current: seq![] },
    );
}

/// A Host is looked up without regard to ASCII case: two spellings that
/// differ only in case find the same `HostName`.
pub proof fn lemma_host_name_ignores_case(
    entries: Seq<(Seq<char>, Seq<char>)>,
    a: Seq<char>,
    b: Seq<char>,
)
    requires
        eq_ic(a, b),
    ensures
        host_name_of(entries, a) == host_name_of(entries, b),
    decreases entries.len(),
{
    if entries.len() > 0 {
        lemma_host_name_ignores_case(entries.drop_first(), a, b);
    }
}

/// The score of a destination is never worse than its direct name score, nor
/// than that of the `HostName` its config gives it.
pub proof fn lemma_host_score_takes_the_better(
    destination: Seq<char>,
    alias: Seq<char>,
    hosts: Seq<(Seq<char>, Seq<char>)>,
)
    ensures
        name_score(destination, alias) is Some ==> host_score_spec(destination, alias, hosts) is Some
            && host_score_spec(destination, alias, hosts)->0 >= name_score(destination, alias)->0,
        host_score_spec(destination, alias, hosts) is Some ==> (host_score_spec(
            destination,
            alias,
            hosts,
        ) == name_score(destination, alias) || (host_name_of(hosts, trim(destination)) is Some
            && host_score_spec(destination, alias, hosts) == name_score(
            host_name_of(hosts, trim(destination))->0,
            alias,
        ))),
{
}

/// A prefix match needs [`MIN_PREFIX`] characters on both sides: a lone
/// first letter never stands for a machine.
pub proof fn lemma_prefix_match_needs_min_prefix(host: Seq<char>, alias: Seq<char>)
    ensures
        name_score(host, alias) == Some(1u8) ==> trim(alias).len() >= MIN_PREFIX && before_first(
            trim(host),
            '.',
        ).len() >= MIN_PREFIX,
        trim(alias).len() < MIN_PREFIX && trim(host).len() < MIN_PREFIX ==> (name_score(
            host,
            alias,
        ) is Some ==> eq_ic(trim(host), trim(alias)) || eq_ic(
            before_first(trim(host), '.'),
            trim(alias),
        )),
{
}

} // verus!
