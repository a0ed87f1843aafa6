//! Which pane belongs to a job.
//!
//! Identity first, heuristics after: the hook reports the agent process id,
//! and that process sits on exactly one pane's tty. Paths, session names and
//! locality only break ties between panes that could not be identified that
//! way.
//!
//! A job reported by a producer on another host has no pane here at all; it
//! is matched instead by the session the human watches it through, the pane
//! running `ssh` to that host ([`SshRoute`]).
//!
//! Deciding only: nothing here moves a pane or paints anything.
use vstd::prelude::*;

use crate::frame::JobView;
use crate::machine::{foreign_alias, foreign_alias_spec, opt_string_view, opt_view};
use crate::ssh::{host_score, host_score_spec, is_remote_client, is_remote_client_spec, SshHosts};
use crate::text::{
    chars_of, lines, range_eq, ranges_text, ranges_valid, split_char, split_char_ranges,
    string_of_range, trim, trim_range,
};
use crate::tmux::SIDEBAR_ROLE;

verus! {

/// The `list-panes -a -F` format a scan reads, one tab-separated row per
/// pane.
pub const LIST_PANES_FORMAT: &'static str = "#{pane_id}\t#{pane_current_path}\t#{@nerve_pane_role}\t#{pane_tty}\t#{session_name}\t#{window_id}\t#{pane_current_command}\t#{@nerve_preview_owner}";

/// Where the sidebar itself lives.
#[derive(Clone, Debug)]
pub struct SidebarPane {
    pub id: String,
    pub session: String,
    pub window: String,
}

impl SidebarPane {
    /// No pane at all: the shape a sidebar has outside tmux.
    pub fn none() -> (s: Self)
        ensures
            s.id@ == Seq::<char>::empty(),
            s.session@ == Seq::<char>::empty(),
            s.window@ == Seq::<char>::empty(),
    {
        SidebarPane { id: String::new(), session: String::new(), window: String::new() }
    }
}

// ───────────────────────────── rows ─────────────────────────────

/// One row of [`LIST_PANES_FORMAT`].
#[derive(Clone, Debug)]
pub struct PaneRow {
    pub id: String,
    pub path: String,
    pub role: String,
    pub tty: String,
    pub session: String,
    pub window: String,
    /// Foreground process, which is how an ssh session announces itself.
    pub command: String,
    /// Sidebar currently showing this pane, if any.
    pub owner: String,
}

/// The mathematical content of a row.
pub struct PaneFields {
    pub id: Seq<char>,
    pub path: Seq<char>,
    pub role: Seq<char>,
    pub tty: Seq<char>,
    pub session: Seq<char>,
    pub window: Seq<char>,
    pub command: Seq<char>,
    pub owner: Seq<char>,
}

impl View for PaneRow {
    type V = PaneFields;

    open spec fn view(&self) -> PaneFields {
        PaneFields {
            id: self.id@,
            path: self.path@,
            role: self.role@,
            tty: self.tty@,
            session: self.session@,
            window: self.window@,
            command: self.command@,
            owner: self.owner@,
        }
    }
}

/// Piece `k`, or empty when the row has fewer.
pub open spec fn piece(pieces: Seq<Seq<char>>, k: int) -> Seq<char> {
    if k < pieces.len() {
        pieces[k]
    } else {
        seq![]
    }
}

/// A row read from its tab-separated line; missing trailing fields are empty.
pub open spec fn row_of(line: Seq<char>) -> PaneFields {
    let p = split_char(line, '\t');
    PaneFields {
        id: piece(p, 0),
        path: piece(p, 1),
        role: piece(p, 2),
        tty: piece(p, 3),
        session: piece(p, 4),
        window: piece(p, 5),
        command: piece(p, 6),
        owner: piece(p, 7),
    }
}

/// Piece `k` of the pieces `r` of `v`, as a `String`.
fn piece_string(v: &Vec<char>, r: &Vec<crate::text::Range>, k: usize) -> (s: String)
    requires
        ranges_valid(v@, r@),
    ensures
        s@ == piece(ranges_text(v@, r@), k as int),
{
    if k < r.len() {
        string_of_range(v, r[k].start, r[k].end)
    } else {
        String::new()
    }
}

impl PaneRow {
    /// Read the row `v[from..to]`.
    fn parse_in(v: &Vec<char>, from: usize, to: usize) -> (row: PaneRow)
        requires
            from <= to <= v.len(),
        ensures
            row@ == row_of(v@.subrange(from as int, to as int)),
    {
        let r = split_char_ranges(v, from, to, '\t');
        PaneRow {
            id: piece_string(v, &r, 0),
            path: piece_string(v, &r, 1),
            role: piece_string(v, &r, 2),
            tty: piece_string(v, &r, 3),
            session: piece_string(v, &r, 4),
            window: piece_string(v, &r, 5),
            command: piece_string(v, &r, 6),
            owner: piece_string(v, &r, 7),
        }
    }

    /// Read one row of [`LIST_PANES_FORMAT`].
    pub fn parse(line: &str) -> (row: PaneRow)
        ensures
            row@ == row_of(line@),
    {
        let v = chars_of(line);
        assert(v@.subrange(0, v.len() as int) =~= v@);
        PaneRow::parse_in(&v, 0, v.len())
    }
}

/// Whether another sidebar is already showing this pane: two sidebars taking
/// turns on one agent pane is not a race anyone can win.
pub open spec fn taken_by_another(row: PaneFields, sidebar_id: Seq<char>) -> bool {
    row.owner.len() > 0 && row.owner != sidebar_id
}

/// Whether a row is never a target: the sidebar itself, a sidebar-roled
/// pane, or a pane another sidebar holds.
pub open spec fn never_a_target(row: PaneFields, sidebar_id: Seq<char>) -> bool {
    row.id == sidebar_id || row.role == SIDEBAR_ROLE@ || taken_by_another(row, sidebar_id)
}

fn never_a_target_exec(row: &PaneRow, sidebar: &SidebarPane) -> (b: bool)
    ensures
        b == never_a_target(row@, sidebar.id@),
{
    let role = chars_of(row.role.as_str());
    row.id == sidebar.id || crate::text::vec_eq(&role, SIDEBAR_ROLE) || (
    row.owner.unicode_len() > 0 && row.owner != sidebar.id)
}

// ───────────────────────────── ranks ─────────────────────────────

/// How well one pane answers "is this the job's terminal", compared field by
/// field in this order, so the agent's own tty beats every heuristic under it.
#[derive(Clone, Copy, Debug, PartialEq, Eq, Structural)]
pub struct PaneRank {
    /// The agent process runs on this pane's tty.
    pub tty: bool,
    /// How well this pane's ssh session names the job's machine.
    pub host: u8,
    /// Filesystem overlap between the pane's cwd and the job's workspace.
    pub path: usize,
    /// tmux session named after the job.
    pub named: bool,
    /// Same tmux session as the sidebar.
    pub session: bool,
    /// Same tmux window as the sidebar.
    pub window: bool,
}

pub open spec fn bool_gt(a: bool, b: bool) -> bool {
    a && !b
}

/// `a` ranks strictly above `b`, comparing the fields in order.
pub open spec fn rank_gt(a: PaneRank, b: PaneRank) -> bool {
    ||| bool_gt(a.tty, b.tty)
    ||| a.tty == b.tty && a.host > b.host
    ||| a.tty == b.tty && a.host == b.host && a.path > b.path
    ||| a.tty == b.tty && a.host == b.host && a.path == b.path && bool_gt(a.named, b.named)
    ||| a.tty == b.tty && a.host == b.host && a.path == b.path && a.named == b.named && bool_gt(
        a.session,
        b.session,
    )
    ||| a.tty == b.tty && a.host == b.host && a.path == b.path && a.named == b.named && a.session
        == b.session && bool_gt(a.window, b.window)
}

pub fn rank_gt_exec(a: &PaneRank, b: &PaneRank) -> (r: bool)
    ensures
        r == rank_gt(*a, *b),
{
    if a.tty != b.tty {
        return a.tty;
    }
    if a.host != b.host {
        return a.host > b.host;
    }
    if a.path != b.path {
        return a.path > b.path;
    }
    if a.named != b.named {
        return a.named;
    }
    if a.session != b.session {
        return a.session;
    }
    a.window && !b.window
}

/// How close a row sits to the sidebar: the tie-break under every real match.
pub open spec fn locality(row: PaneFields, session: Seq<char>, window: Seq<char>) -> PaneRank {
    PaneRank {
        tty: false,
        host: 0,
        path: 0,
        named: false,
        session: session.len() > 0 && row.session == session,
        window: window.len() > 0 && row.window == window,
    }
}

fn locality_exec(row: &PaneRow, sidebar: &SidebarPane) -> (r: PaneRank)
    ensures
        r == locality(row@, sidebar.session@, sidebar.window@),
{
    PaneRank {
        tty: false,
        host: 0,
        path: 0,
        named: false,
        session: sidebar.session.unicode_len() > 0 && row.session == sidebar.session,
        window: sidebar.window.unicode_len() > 0 && row.window == sidebar.window,
    }
}

// ───────────────────────────── terminals ─────────────────────────────

/// What [`normalize_tty`] answers: `/dev/ttys001`, `ttys001` and `s001` are
/// one terminal, `s001`.
pub open spec fn normalize_tty_spec(tty: Seq<char>) -> Seq<char> {
    let t = crate::procs::strip_dev(trim(tty));
    if t.len() > 3 && t.take(3) == crate::procs::tty_prefix() {
        t.skip(3)
    } else {
        t
    }
}

/// `/dev/ttys001`, `ttys001` and `s001` are one terminal; `ps` and tmux each
/// spell it their own way.
pub fn normalize_tty(tty: &str) -> (r: String)
    ensures
        r@ == normalize_tty_spec(tty@),
{
    let v = chars_of(tty);
    let (mut a, b) = trim_range(&v, 0, v.len());
    assert(v@.subrange(0, v.len() as int) =~= v@);
    proof {
        reveal_strlit("/dev/");
    }
    while b - a >= 5 && range_eq(&v, a, a + 5, "/dev/")
        invariant
            a <= b <= v.len(),
            "/dev/"@ == crate::procs::dev_prefix(),
            crate::procs::strip_dev(trim(tty@)) == crate::procs::strip_dev(
                v@.subrange(a as int, b as int),
            ),
        decreases b - a,
    {
        assert(v@.subrange(a as int, b as int).take(5) =~= v@.subrange(a as int, a + 5));
        assert(v@.subrange(a as int, b as int).skip(5) =~= v@.subrange(a + 5, b as int));
        a = a + 5;
    }
    let ghost t = v@.subrange(a as int, b as int);
    proof {
        reveal_strlit("tty");
        if t.len() >= 5 {
            assert(t.take(5) =~= v@.subrange(a as int, a + 5));
        }
        if t.len() >= 3 {
            assert(t.take(3) =~= v@.subrange(a as int, a + 3));
        }
        assert(crate::procs::strip_dev(t) == t);
        assert("tty"@ == crate::procs::tty_prefix());
    }
    if b - a > 3 && range_eq(&v, a, a + 3, "tty") {
        assert(t.skip(3) =~= v@.subrange(a + 3, b as int));
        string_of_range(&v, a + 3, b)
    } else {
        string_of_range(&v, a, b)
    }
}

// ───────────────────────────── paths ─────────────────────────────

/// A string's length in bytes, as `str::len` answers it.
pub open spec fn byte_len(s: Seq<char>) -> usize {
    vstd::utf8::encode_utf8(s).len() as usize
}

pub open spec fn is_prefix_of(p: Seq<char>, s: Seq<char>) -> bool {
    p.len() <= s.len() && s.take(p.len() as int) == p
}

pub open spec fn min_usize(a: usize, b: usize) -> usize {
    if a <= b {
        a
    } else {
        b
    }
}

/// Whether a path is absolute.
pub open spec fn is_absolute(p: Seq<char>) -> bool {
    p.len() > 0 && p[0] == '/'
}

/// The components of a path as `Path::components` yields them: empty pieces
/// and `.` pieces dropped, except a `.` that starts a relative path.
pub open spec fn keep_components(pieces: Seq<Seq<char>>, relative: bool) -> Seq<Seq<char>>
    decreases pieces.len(),
{
    if pieces.len() == 0 {
        seq![]
    } else {
        let rest = keep_components(pieces.drop_last(), relative);
        let last = pieces.last();
        if last.len() > 0 && (last != seq!['.'] || (pieces.len() == 1 && relative)) {
            rest.push(last)
        } else {
            rest
        }
    }
}

pub open spec fn components(p: Seq<char>) -> Seq<Seq<char>> {
    keep_components(split_char(p, '/'), !is_absolute(p))
}

/// `Path` equality: the same root and the same components.
pub open spec fn same_path(a: Seq<char>, b: Seq<char>) -> bool {
    is_absolute(a) == is_absolute(b) && components(a) == components(b)
}

/// The components of `v`, as ranges of `v`.
fn component_ranges(v: &Vec<char>) -> (r: Vec<crate::text::Range>)
    ensures
        ranges_valid(v@, r@),
        ranges_text(v@, r@) == components(v@),
{
    assert(v@.subrange(0, v.len() as int) =~= v@);
    let pieces = split_char_ranges(v, 0, v.len(), '/');
    let ghost ps = ranges_text(v@, pieces@);
    let relative = !(v.len() > 0 && v[0] == '/');
    let mut r: Vec<crate::text::Range> = Vec::new();
    let mut i: usize = 0;
    assert(ranges_text(v@, r@) =~= keep_components(ps.take(0), relative));
    while i < pieces.len()
        invariant
            i <= pieces.len(),
            ps == ranges_text(v@, pieces@),
            ranges_valid(v@, pieces@),
            ranges_valid(v@, r@),
            relative == !is_absolute(v@),
            ranges_text(v@, r@) == keep_components(ps.take(i as int), relative),
        decreases pieces.len() - i,
    {
        let a = pieces[i].start;
        let b = pieces[i].end;
        assert(ps.take(i + 1).drop_last() =~= ps.take(i as int));
        assert(ps.take(i + 1).last() == v@.subrange(a as int, b as int));
        let dot = b - a == 1 && v[a] == '.';
        assert(dot == (v@.subrange(a as int, b as int) == seq!['.'])) by {
            if b - a == 1 {
                assert(v@.subrange(a as int, b as int)[0] == v@[a as int]);
                if v@[a as int] == '.' {
                    assert(v@.subrange(a as int, b as int) =~= seq!['.']);
                }
            }
        }
        if b > a && (!dot || (i == 0 && relative)) {
            let ghost old_r = r@;
            r.push(crate::text::Range { start: a, end: b });
            assert(ranges_text(v@, r@) =~= ranges_text(v@, old_r).push(
                v@.subrange(a as int, b as int),
            ));
            assert forall|m: int| 0 <= m < r@.len() implies #[trigger] r@[m].start <= r@[m].end
                && r@[m].end <= v@.len() by {
                if m < old_r.len() {
                    assert(r@[m] == old_r[m]);
                }
            }
        }
        i = i + 1;
    }
    assert(ps.take(pieces.len() as int) =~= ps);
    r
}

/// Whether two paths are equal as `Path`s.
pub fn same_path_exec(a: &str, b: &str) -> (r: bool)
    ensures
        r == same_path(a@, b@),
{
    let va = chars_of(a);
    let vb = chars_of(b);
    let abs_a = va.len() > 0 && va[0] == '/';
    let abs_b = vb.len() > 0 && vb[0] == '/';
    if abs_a != abs_b {
        return false;
    }
    let ca = component_ranges(&va);
    let cb = component_ranges(&vb);
    let ghost sa = ranges_text(va@, ca@);
    let ghost sb = ranges_text(vb@, cb@);
    if ca.len() != cb.len() {
        assert(sa.len() != sb.len());
        return false;
    }
    let mut i: usize = 0;
    while i < ca.len()
        invariant
            i <= ca.len() == cb.len(),
            sa == ranges_text(va@, ca@),
            sb == ranges_text(vb@, cb@),
            sa == components(a@),
            sb == components(b@),
            ranges_valid(va@, ca@),
            ranges_valid(vb@, cb@),
            forall|j: int| 0 <= j < i ==> sa[j] == sb[j],
        decreases ca.len() - i,
    {
        let x = string_of_range(&va, ca[i].start, ca[i].end);
        let y = string_of_range(&vb, cb[i].start, cb[i].end);
        if !(x == y) {
            assert(sa[i as int] != sb[i as int]);
            return false;
        }
        i = i + 1;
    }
    assert(sa =~= sb);
    true
}

/// What `canonical` made of the path `path`, the filesystem's real form of
/// it: its answer, or the path itself when it had none.
pub open spec fn canon_answered<F: Fn(&str) -> Option<String>>(canonical: F, path: Seq<char>, canon: Seq<char>) -> bool {
    exists|t: &str, a: Option<String>|
        t@ == path && #[trigger] canonical.ensures((t,), a) && canon == match a {
            Some(c) => c@,
            None => path,
        }
}

/// Whether `score` is what [`path_match_score`] answers for `path` against
/// `target`: the spelling alone decides when the path is empty or the two
/// spellings overlap; otherwise `canonical` is asked for the path's real
/// form, and that answer is what is compared.
pub open spec fn path_score_answered<F: Fn(&str) -> Option<String>>(
    canonical: F,
    path: Seq<char>,
    target: Seq<char>,
    score: Option<usize>,
) -> bool {
    if path.len() == 0 || text_score(path, target) is Some {
        score == path_score_spec(path, target, path)
    } else {
        exists|canon: Seq<char>|
            canon_answered(canonical, path, canon) && score == #[trigger] path_score_spec(path, target, canon)
    }
}

/// The score of two path spellings: the same text is the best match, one
/// text a prefix of the other scores the bytes they share.
pub open spec fn text_score(pane: Seq<char>, target: Seq<char>) -> Option<usize> {
    if pane == target {
        Some(usize::MAX)
    } else if is_prefix_of(pane, target) || is_prefix_of(target, pane) {
        Some(min_usize(byte_len(pane), byte_len(target)))
    } else {
        None
    }
}

/// What [`path_match_score`] answers when the pane path resolves to `canon`:
/// the spellings as given first, then the resolved pane path.
pub open spec fn path_score_spec(pane: Seq<char>, target: Seq<char>, canon: Seq<char>) -> Option<
    usize,
> {
    if pane.len() == 0 {
        None
    } else {
        match text_score(pane, target) {
            Some(score) => Some(score),
            None => if same_path(canon, target) {
                Some(usize::MAX)
            } else if is_prefix_of(canon, target) || is_prefix_of(target, canon) {
                Some(min_usize(byte_len(canon), byte_len(target)))
            } else {
                None
            },
        }
    }
}

fn text_score_exec(pane: &str, target: &str) -> (r: Option<usize>)
    ensures
        r == text_score(pane@, target@),
{
    let p = chars_of(pane);
    let t = chars_of(target);
    if crate::text::seq_eq(&p, &t) {
        return Some(usize::MAX);
    }
    let pt = p.len() <= t.len() && crate::text::starts_with_at(&t, 0, pane);
    let tp = t.len() <= p.len() && crate::text::starts_with_at(&p, 0, target);
    assert(pt == is_prefix_of(pane@, target@)) by {
        if p.len() <= t.len() {
            assert(t@.subrange(0, pane@.len() as int) =~= t@.take(pane@.len() as int));
        }
    }
    assert(tp == is_prefix_of(target@, pane@)) by {
        if t.len() <= p.len() {
            assert(p@.subrange(0, target@.len() as int) =~= p@.take(target@.len() as int));
        }
    }
    if pt || tp {
        let a = pane.len();
        let b = target.len();
        Some(if a <= b {
            a
        } else {
            b
        })
    } else {
        None
    }
}

/// Higher is better; `None` means no relationship. The given spellings are
/// compared first; failing that, the pane path as the filesystem resolves it
/// (unresolvable, as given).
pub fn path_match_score<F: Fn(&str) -> Option<String>>(pane_path: &str, target: &str, canonical: &F) -> (r:
    Option<usize>)
    requires
        forall|t: &str| canonical.requires((t,)),
    ensures
        pane_path@.len() == 0 ==> r is None,
        text_score(pane_path@, target@) is Some && pane_path@.len() > 0 ==> r == text_score(
            pane_path@,
            target@,
        ),
        path_score_answered(*canonical, pane_path@, target@, r),
{
    if pane_path.unicode_len() == 0 {
        assert(path_score_spec(pane_path@, target@, pane_path@) is None);
        return None;
    }
    match text_score_exec(pane_path, target) {
        Some(score) => {
            assert(path_score_spec(pane_path@, target@, pane_path@) == Some(score));
            return Some(score);
        },
        None => {},
    }
    let answer = canonical(pane_path);
    let canon = match answer {
        Some(c) => c,
        None => pane_path.to_owned(),
    };
    let c = canon.as_str();
    proof {
        assert(canonical.ensures((pane_path,), answer));
        assert(canon_answered(*canonical, pane_path@, c@));
    }
    let r = if same_path_exec(c, target) {
        Some(usize::MAX)
    } else {
        text_prefix_score(c, target)
    };
    assert(r == path_score_spec(pane_path@, target@, c@));
    r
}

fn text_prefix_score(a: &str, b: &str) -> (r: Option<usize>)
    ensures
        r == (if is_prefix_of(a@, b@) || is_prefix_of(b@, a@) {
            Some(min_usize(byte_len(a@), byte_len(b@)))
        } else {
            None::<usize>
        }),
{
    let p = chars_of(a);
    let t = chars_of(b);
    let pt = p.len() <= t.len() && crate::text::starts_with_at(&t, 0, a);
    let tp = t.len() <= p.len() && crate::text::starts_with_at(&p, 0, b);
    assert(pt == is_prefix_of(a@, b@)) by {
        if p.len() <= t.len() {
            assert(t@.subrange(0, a@.len() as int) =~= t@.take(a@.len() as int));
        }
    }
    assert(tp == is_prefix_of(b@, a@)) by {
        if t.len() <= p.len() {
            assert(p@.subrange(0, b@.len() as int) =~= p@.take(b@.len() as int));
        }
    }
    if pt || tp {
        let x = a.len();
        let y = b.len();
        Some(if x <= y {
            x
        } else {
            y
        })
    } else {
        None
    }
}

// ───────────────────────────── the best pane ─────────────────────────────

/// The better of the best so far and a new candidate: a candidate replaces
/// the best only when it ranks strictly above it, so the first of equals wins.
pub open spec fn keep_best<T>(best: Option<(PaneRank, T)>, candidate: Option<(PaneRank, T)>) -> Option<
    (PaneRank, T),
> {
    match candidate {
        None => best,
        Some((rank, _)) => match best {
            None => candidate,
            Some((prev, _)) => if rank_gt(rank, prev) {
                candidate
            } else {
                best
            },
        },
    }
}

/// The pane holding an ssh session to a job's machine, and the host it
/// reaches: the pane is where `Enter` lands the human, the destination is
/// what the far side is asked through.
#[derive(Clone, Debug, PartialEq, Eq)]
pub struct SshRoute {
    pub pane: String,
    pub destination: String,
    /// Window the pane sits in.
    pub window: String,
}

pub struct RouteView {
    pub pane: Seq<char>,
    pub destination: Seq<char>,
    pub window: Seq<char>,
}

impl View for SshRoute {
    type V = RouteView;

    open spec fn view(&self) -> RouteView {
        RouteView { pane: self.pane@, destination: self.destination@, window: self.window@ }
    }
}

pub open spec fn route_opt_view(r: Option<SshRoute>) -> Option<RouteView> {
    match r {
        Some(route) => Some(route@),
        None => None,
    }
}

/// Whether a row may hold a route at all: a target whose foreground process
/// is a remote-shell client.
pub open spec fn ssh_candidate(row: PaneFields, sidebar_id: Seq<char>) -> bool {
    !never_a_target(row, sidebar_id) && is_remote_client_spec(row.command)
}

/// A row's rank and route, given where its session was found to reach.
pub open spec fn route_rank(
    row: PaneFields,
    sidebar: (Seq<char>, Seq<char>, Seq<char>),
    alias: Seq<char>,
    hosts: Seq<(Seq<char>, Seq<char>)>,
    reaches: Option<Seq<char>>,
) -> Option<(PaneRank, RouteView)> {
    if !ssh_candidate(row, sidebar.0) {
        None
    } else {
        match reaches {
            None => None,
            Some(d) => match host_score_spec(d, alias, hosts) {
                None => None,
                Some(host) => Some(
                    (
                        PaneRank { host, ..locality(row, sidebar.1, sidebar.2) },
                        RouteView { pane: row.id, destination: d, window: row.window },
                    ),
                ),
            },
        }
    }
}

/// The best route over rows `ls`, row `i`'s session reaching `reaches[i]`.
pub open spec fn best_route(
    ls: Seq<Seq<char>>,
    reaches: Seq<Option<Seq<char>>>,
    sidebar: (Seq<char>, Seq<char>, Seq<char>),
    alias: Seq<char>,
    hosts: Seq<(Seq<char>, Seq<char>)>,
) -> Option<(PaneRank, RouteView)>
    decreases ls.len(),
{
    if ls.len() == 0 || reaches.len() == 0 {
        None
    } else {
        keep_best(
            best_route(ls.drop_last(), reaches.drop_last(), sidebar, alias, hosts),
            route_rank(row_of(ls.last()), sidebar, alias, hosts, reaches.last()),
        )
    }
}

pub open spec fn sidebar_view(s: SidebarPane) -> (Seq<char>, Seq<char>, Seq<char>) {
    (s.id@, s.session@, s.window@)
}

/// The route over rows `ls` for the answers `reaches`.
pub open spec fn route_of(
    ls: Seq<Seq<char>>,
    reaches: Seq<Option<Seq<char>>>,
    sidebar: (Seq<char>, Seq<char>, Seq<char>),
    alias: Seq<char>,
    hosts: Seq<(Seq<char>, Seq<char>)>,
) -> Option<RouteView> {
    match best_route(ls, reaches, sidebar, alias, hosts) {
        Some((_, route)) => Some(route),
        None => None,
    }
}

/// Whether `reached` is what asking `destination` about a row gave: for a
/// row that may hold a route, its answer for the row's tty; for any other
/// row, nothing, since it is not asked.
pub open spec fn reach_answered<F: Fn(&str) -> Option<String>>(
    destination: F,
    row: PaneFields,
    sidebar_id: Seq<char>,
    reached: Option<Seq<char>>,
) -> bool {
    if ssh_candidate(row, sidebar_id) {
        exists|t: &str, a: Option<String>|
            t@ == row.tty && #[trigger] destination.ensures((t,), a) && reached == opt_string_view(a)
    } else {
        reached is None
    }
}

/// Best pane holding an ssh session to `alias`.
///
/// `destination` answers where the session on a tty is connected; it is
/// asked only of rows that are targets running a remote-shell client. The
/// route is the best-ranked (host score, then same session, then same
/// window; the first of equals) over the answers it gave.
pub fn select_ssh_route<F: Fn(&str) -> Option<String>>(
    panes: &str,
    sidebar: &SidebarPane,
    alias: &str,
    hosts: &SshHosts,
    destination: &F,
) -> (r: Option<SshRoute>)
    requires
        forall|t: &str| asked_tty(panes@, sidebar.id@, t@) ==> #[trigger] destination.requires((t,)),
    ensures
        exists|reaches: Seq<Option<Seq<char>>>|
            {
                &&& reaches.len() == lines(panes@).len()
                &&& forall|i: int|
                    0 <= i < reaches.len() ==> reach_answered(
                        *destination,
                        row_of(lines(panes@)[i]),
                        sidebar.id@,
                        #[trigger] reaches[i],
                    )
                &&& route_opt_view(r) == route_of(
                    lines(panes@),
                    reaches,
                    sidebar_view(*sidebar),
                    alias@,
                    hosts@,
                )
            },
{
    let v = chars_of(panes);
    let ranges = crate::text::line_ranges(&v);
    let ghost ls = ranges_text(v@, ranges@);
    let mut answers: Vec<Option<String>> = Vec::new();
    let mut i: usize = 0;
    while i < ranges.len()
        invariant
            i <= ranges.len(),
            ls == ranges_text(v@, ranges@),
            ls == lines(panes@),
            ranges_valid(v@, ranges@),
            forall|t: &str| asked_tty(panes@, sidebar.id@, t@) ==> #[trigger] destination.requires((t,)),
            answers.len() == i,
            forall|k: int|
                0 <= k < i ==> reach_answered(
                    *destination,
                    row_of(ls[k]),
                    sidebar.id@,
                    #[trigger] answers_view(answers@)[k],
                ),
        decreases ranges.len() - i,
    {
        let row = PaneRow::parse_in(&v, ranges[i].start, ranges[i].end);
        assert(ls.take(i + 1).last() == v@.subrange(
            ranges[i as int].start as int,
            ranges[i as int].end as int,
        ));
        assert(ls[i as int] == ls.take(i + 1).last());
        let ghost before = answers@;
        let answer = if !never_a_target_exec(&row, sidebar) && is_remote_client(row.command.as_str()) {
            let tty = row.tty.as_str();
            proof {
                assert(row_of(ls[i as int]) == row@);
                assert(asked_tty(panes@, sidebar.id@, tty@));
            }
            let answer = destination(tty);
            proof {
                assert(destination.ensures((tty,), answer));
                assert(reach_answered(*destination, row@, sidebar.id@, opt_string_view(answer)));
            }
            answer
        } else {
            None
        };
        answers.push(answer);
        proof {
            assert(answers@.drop_last() =~= before);
            assert forall|k: int| 0 <= k < i + 1 implies reach_answered(
                *destination,
                row_of(ls[k]),
                sidebar.id@,
                #[trigger] answers_view(answers@)[k],
            ) by {
                if k < i {
                    assert(answers@[k] == before[k]);
                    assert(answers_view(answers@)[k] == answers_view(before)[k]);
                }
            }
        }
        i = i + 1;
    }
    proof {
        assert(ls.take(ranges.len() as int) =~= ls);
    }
    route_among(panes, sidebar, alias, hosts, &answers)
}

/// Whether `tty` is the terminal of a row of `panes` that may hold a route:
/// the only terminals [`select_ssh_route`] asks `destination` about.
pub open spec fn asked_tty(panes: Seq<char>, sidebar_id: Seq<char>, tty: Seq<char>) -> bool {
    exists|i: int|
        0 <= i < lines(panes).len() && ssh_candidate(#[trigger] row_of(lines(panes)[i]), sidebar_id)
            && row_of(lines(panes)[i]).tty == tty
}

/// What was asked of each row, as text: `answers[i]` for the row on line `i`.
pub open spec fn answers_view(answers: Seq<Option<String>>) -> Seq<Option<Seq<char>>> {
    answers.map_values(|a: Option<String>| opt_string_view(a))
}

/// Best pane holding an ssh session to `alias`, given where the session
/// on each row is connected: `reaches[i]` for the row on line `i`, read
/// only for rows that are targets running a remote-shell client. The route
/// is the best-ranked (host score, then same session, then same window;
/// the first of equals).
pub fn route_among(
    panes: &str,
    sidebar: &SidebarPane,
    alias: &str,
    hosts: &SshHosts,
    reaches: &Vec<Option<String>>,
) -> (r: Option<SshRoute>)
    requires
        reaches.len() == lines(panes@).len(),
    ensures
        route_opt_view(r) == route_of(
            lines(panes@),
            answers_view(reaches@),
            sidebar_view(*sidebar),
            alias@,
            hosts@,
        ),
{
    let v = chars_of(panes);
    let ranges = crate::text::line_ranges(&v);
    let ghost ls = ranges_text(v@, ranges@);
    let ghost sb = sidebar_view(*sidebar);
    let ghost all = answers_view(reaches@);
    let mut best: Option<(PaneRank, SshRoute)> = None;
    let mut i: usize = 0;
    while i < ranges.len()
        invariant
            i <= ranges.len(),
            ls == ranges_text(v@, ranges@),
            ls == lines(panes@),
            ranges_valid(v@, ranges@),
            sb == sidebar_view(*sidebar),
            all == answers_view(reaches@),
            reaches.len() == ls.len(),
            (match best {
                Some((rank, route)) => Some((rank, route@)),
                None => None,
            }) == best_route(ls.take(i as int), all.take(i as int), sb, alias@, hosts@),
        decreases ranges.len() - i,
    {
        let row = PaneRow::parse_in(&v, ranges[i].start, ranges[i].end);
        assert(ls.take(i + 1).drop_last() =~= ls.take(i as int));
        assert(all.take(i + 1).drop_last() =~= all.take(i as int));
        assert(ls.take(i + 1).last() == v@.subrange(
            ranges[i as int].start as int,
            ranges[i as int].end as int,
        ));
        let ghost found = all[i as int];
        assert(all.take(i + 1).last() == found);
        let mut candidate: Option<(PaneRank, SshRoute)> = None;
        if !never_a_target_exec(&row, sidebar) && is_remote_client(row.command.as_str()) {
            match &reaches[i] {
                None => {},
                Some(reached) => {
                    match host_score(reached.as_str(), alias, hosts) {
                        None => {},
                        Some(host) => {
                            let near = locality_exec(&row, sidebar);
                            let rank = PaneRank { host, ..near };
                            let window = row.window.clone();
                            candidate = Some(
                                (rank, SshRoute { pane: row.id.clone(), destination: reached.clone(), window }),
                            );
                        },
                    }
                },
            }
        }
        assert((match candidate {
            Some((rank, route)) => Some((rank, route@)),
            None => None,
        }) == route_rank(row@, sb, alias@, hosts@, found));
        best = match candidate {
            None => best,
            Some((rank, route)) => match best {
                None => Some((rank, route)),
                Some((prev, old)) => if rank_gt_exec(&rank, &prev) {
                    Some((rank, route))
                } else {
                    Some((prev, old))
                },
            },
        };
        i = i + 1;
    }
    assert(ls.take(ranges.len() as int) =~= ls);
    assert(all.take(ranges.len() as int) =~= all);
    match best {
        Some((_, route)) => Some(route),
        None => None,
    }
}

/// A row's rank as a local job's pane, given its path score; `None` when it
/// matches neither by terminal nor by path.
pub open spec fn local_rank(
    row: PaneFields,
    sidebar: (Seq<char>, Seq<char>, Seq<char>),
    job_name: Seq<char>,
    agent_tty: Option<Seq<char>>,
    path: Option<usize>,
) -> Option<(PaneRank, Seq<char>)> {
    let tty = agent_tty matches Some(t) && normalize_tty_spec(row.tty) == t;
    if never_a_target(row, sidebar.0) || (path is None && !tty) {
        None
    } else {
        Some(
            (
                PaneRank {
                    tty,
                    path: match path {
                        Some(p) => p,
                        None => 0,
                    },
                    named: job_name.len() > 0 && row.session == job_name,
                    ..locality(row, sidebar.1, sidebar.2)
                },
                row.id,
            ),
        )
    }
}

/// The best local pane over rows `ls`, row `i` scoring `paths[i]`.
pub open spec fn best_local(
    ls: Seq<Seq<char>>,
    paths: Seq<Option<usize>>,
    sidebar: (Seq<char>, Seq<char>, Seq<char>),
    job_name: Seq<char>,
    agent_tty: Option<Seq<char>>,
) -> Option<(PaneRank, Seq<char>)>
    decreases ls.len(),
{
    if ls.len() == 0 || paths.len() == 0 {
        None
    } else {
        keep_best(
            best_local(ls.drop_last(), paths.drop_last(), sidebar, job_name, agent_tty),
            local_rank(row_of(ls.last()), sidebar, job_name, agent_tty, paths.last()),
        )
    }
}

/// The pane of the best local row.
pub open spec fn local_pane_of(
    ls: Seq<Seq<char>>,
    paths: Seq<Option<usize>>,
    sidebar: (Seq<char>, Seq<char>, Seq<char>),
    job_name: Seq<char>,
    agent_tty: Option<Seq<char>>,
) -> Option<Seq<char>> {
    match best_local(ls, paths, sidebar, job_name, agent_tty) {
        Some((_, pane)) => Some(pane),
        None => None,
    }
}

/// Whether `score` is what [`path_match_score`] answers for the path of
/// `row` against the job's workspace: nothing without a workspace, and for
/// a row that is never a target, which is not scored.
pub open spec fn row_path_answered<F: Fn(&str) -> Option<String>>(
    canonical: F,
    row: PaneFields,
    sidebar_id: Seq<char>,
    workspace: Option<Seq<char>>,
    score: Option<usize>,
) -> bool {
    match workspace {
        None => score is None,
        Some(w) => if never_a_target(row, sidebar_id) {
            score is None
        } else {
            path_score_answered(canonical, row.path, w, score)
        },
    }
}

/// Best pane among `panes` (one [`LIST_PANES_FORMAT`] row per line) for a job
/// running on this machine: the agent's terminal first, then path overlap,
/// then a session named after the job, then closeness to the sidebar; the
/// first of equals. A row that matches nothing is skipped, never fatal.
pub fn select_local_pane<F: Fn(&str) -> Option<String>>(
    panes: &str,
    job: &JobView,
    sidebar: &SidebarPane,
    workspace: Option<&str>,
    agent_tty: Option<&str>,
    canonical: &F,
) -> (r: Option<String>)
    requires
        forall|t: &str| canonical.requires((t,)),
    ensures
        exists|paths: Seq<Option<usize>>|
            {
                &&& paths.len() == lines(panes@).len()
                &&& forall|i: int|
                    0 <= i < paths.len() ==> row_path_answered(
                        *canonical,
                        row_of(lines(panes@)[i]),
                        sidebar.id@,
                        opt_view(workspace),
                        #[trigger] paths[i],
                    )
                &&& opt_string_view(r) == #[trigger] local_pane_of(
                    lines(panes@),
                    paths,
                    sidebar_view(*sidebar),
                    job.name@,
                    opt_view(agent_tty),
                )
            },
{
    let v = chars_of(panes);
    let ranges = crate::text::line_ranges(&v);
    let ghost ls = ranges_text(v@, ranges@);
    let ghost sb = sidebar_view(*sidebar);
    let ghost mut paths: Seq<Option<usize>> = seq![];
    let mut best: Option<(PaneRank, String)> = None;
    let mut i: usize = 0;
    while i < ranges.len()
        invariant
            i <= ranges.len(),
            ls == ranges_text(v@, ranges@),
            ls == lines(panes@),
            ranges_valid(v@, ranges@),
            sb == sidebar_view(*sidebar),
            paths.len() == i,
            forall|t: &str| canonical.requires((t,)),
            forall|j: int|
                0 <= j < i ==> row_path_answered(
                    *canonical,
                    row_of(ls[j]),
                    sidebar.id@,
                    opt_view(workspace),
                    #[trigger] paths[j],
                ),
            (match best {
                Some((rank, pane)) => Some((rank, pane@)),
                None => None,
            }) == best_local(ls.take(i as int), paths, sb, job.name@, opt_view(agent_tty)),
        decreases ranges.len() - i,
    {
        let row = PaneRow::parse_in(&v, ranges[i].start, ranges[i].end);
        assert(ls.take(i + 1).drop_last() =~= ls.take(i as int));
        assert(ls.take(i + 1).last() == v@.subrange(
            ranges[i as int].start as int,
            ranges[i as int].end as int,
        ));
        assert(ls[i as int] == ls.take(i + 1).last());
        let ghost before = paths;
        let ghost mut score: Option<usize> = None;
        let mut candidate: Option<(PaneRank, String)> = None;
        if !never_a_target_exec(&row, sidebar) {
            let path = match workspace {
                Some(w) => path_match_score(row.path.as_str(), w, canonical),
                None => None,
            };
            proof {
                score = path;
            }
            let tty = match agent_tty {
                Some(t) => {
                    let normal = normalize_tty(row.tty.as_str());
                    let tv = chars_of(t);
                    let nv = chars_of(normal.as_str());
                    crate::text::seq_eq(&nv, &tv)
                },
                None => false,
            };
            if path.is_some() || tty {
                let near = locality_exec(&row, sidebar);
                let named = job.name.unicode_len() > 0 && row.session == job.name;
                let rank = PaneRank {
                    tty,
                    path: match path {
                        Some(p) => p,
                        None => 0,
                    },
                    named,
                    ..near
                };
                candidate = Some((rank, row.id.clone()));
            }
        }
        proof {
            paths = before.push(score);
            assert(paths.drop_last() =~= before);
            assert(paths[i as int] == score);
            assert forall|j: int|
                0 <= j < i + 1 implies row_path_answered(
                *canonical,
                row_of(ls[j]),
                sidebar.id@,
                opt_view(workspace),
                #[trigger] paths[j],
            ) by {
                if j < i {
                    assert(paths[j] == before[j]);
                } else {
                    assert(row_of(ls[j]) == row@);
                }
            }
        }
        assert((match candidate {
            Some((rank, pane)) => Some((rank, pane@)),
            None => None,
        }) == local_rank(row@, sb, job.name@, opt_view(agent_tty), score));
        best = match candidate {
            None => best,
            Some((rank, pane)) => match best {
                None => Some((rank, pane)),
                Some((prev, old)) => if rank_gt_exec(&rank, &prev) {
                    Some((rank, pane))
                } else {
                    Some((prev, old))
                },
            },
        };
        i = i + 1;
    }
    assert(ls.take(ranges.len() as int) =~= ls);
    let result = match best {
        Some((_, pane)) => Some(pane),
        None => None,
    };
    assert(opt_string_view(result) == local_pane_of(ls, paths, sb, job.name@, opt_view(agent_tty)));
    result
}

// ───────────────────────────── what to look for ─────────────────────────────

/// What one job looks like to the pane scan. Which arm applies is decided by
/// machine identity alone, never by what happened to match: a remote job's
/// pid names a process on another machine and its workspace another
/// machine's directory.
#[derive(Clone, Debug)]
pub enum JobTarget {
    /// The job runs here: match the pane the agent itself sits on.
    Local { workspace: Option<String>, tty: Option<String> },
    /// The job runs on another machine: the closest thing here is the pane
    /// holding an ssh session to it.
    Remote { alias: String },
}

impl JobTarget {
    /// What to scan for, or `None` when the job says nothing this machine can
    /// act on. `local` is this machine's alias; `workspace` is the job's
    /// workspace as this machine resolves it, and `tty` the normalised
    /// terminal of its agent process, when it has one here.
    pub fn of(job: &JobView, local: Option<&str>, workspace: Option<String>, tty: Option<String>) -> (r: Option<JobTarget>)
        ensures
            match foreign_alias_spec(job.alias@, opt_view(local)) {
                Some(alias) => r matches Some(JobTarget::Remote { alias: a }) && a@ == alias,
                None => if workspace.is_some() || tty.is_some() {
                    r matches Some(JobTarget::Local { workspace: w, tty: t }) && w == workspace && t == tty
                } else {
                    r is None
                },
            },
    {
        match foreign_alias(job.alias.as_str(), local) {
            Some(alias) => Some(JobTarget::Remote { alias: alias.to_owned() }),
            None => if workspace.is_some() || tty.is_some() {
                Some(JobTarget::Local { workspace, tty })
            } else {
                None
            },
        }
    }
}

// ───────────────────────────── laws ─────────────────────────────

/// Whether the agent's terminal `agent_tty` is the one `row` sits on.
pub open spec fn on_agent_tty(row: PaneFields, agent_tty: Option<Seq<char>>) -> bool {
    agent_tty matches Some(t) && normalize_tty_spec(row.tty) == t
}

/// Between two panes that may be jumped to and are equally tied to a local
/// job, by the agent's terminal and by path score, the one in the tmux
/// session named after the job is chosen over one in another session,
/// whichever comes first in the listing and however close either is to the
/// sidebar.
pub proof fn lemma_session_named_after_the_job_wins(
    other: Seq<char>,
    named: Seq<char>,
    path: Option<usize>,
    sidebar: (Seq<char>, Seq<char>, Seq<char>),
    job_name: Seq<char>,
    agent_tty: Option<Seq<char>>,
)
    requires
        !never_a_target(row_of(other), sidebar.0),
        !never_a_target(row_of(named), sidebar.0),
        on_agent_tty(row_of(other), agent_tty) == on_agent_tty(row_of(named), agent_tty),
        path is Some || on_agent_tty(row_of(named), agent_tty),
        job_name.len() > 0,
        row_of(named).session == job_name,
        row_of(other).session != job_name,
    ensures
        local_pane_of(seq![other, named], seq![path, path], sidebar, job_name, agent_tty) == Some(
            row_of(named).id,
        ),
        local_pane_of(seq![named, other], seq![path, path], sidebar, job_name, agent_tty) == Some(
            row_of(named).id,
        ),
{
    let a = seq![other, named];
    let b = seq![named, other];
    let ps = seq![path, path];
    assert(a.drop_last() =~= seq![other]);
    assert(b.drop_last() =~= seq![named]);
    assert(ps.drop_last() =~= seq![path]);
    assert(seq![other].drop_last() =~= Seq::<Seq<char>>::empty());
    assert(seq![named].drop_last() =~= Seq::<Seq<char>>::empty());
    assert(seq![path].drop_last() =~= Seq::<Option<usize>>::empty());
    let ro = local_rank(row_of(other), sidebar, job_name, agent_tty, path);
    let rn = local_rank(row_of(named), sidebar, job_name, agent_tty, path);
    assert(best_local(Seq::<Seq<char>>::empty(), Seq::<Option<usize>>::empty(), sidebar, job_name, agent_tty)
        is None);
    assert(best_local(seq![other], seq![path], sidebar, job_name, agent_tty) == ro);
    assert(best_local(seq![named], seq![path], sidebar, job_name, agent_tty) == rn);
    assert(ro is Some && rn is Some);
    assert(rank_gt(rn.unwrap().0, ro.unwrap().0));
    assert(!rank_gt(ro.unwrap().0, rn.unwrap().0));
    assert(best_local(a, ps, sidebar, job_name, agent_tty) == rn);
    assert(best_local(b, ps, sidebar, job_name, agent_tty) == rn);
}

/// Identity beats every heuristic: a pane the agent's tty sits on outranks
/// any pane it does not, whatever their paths, names and places.
pub proof fn lemma_tty_outranks_everything(a: PaneRank, b: PaneRank)
    requires
        a.tty,
        !b.tty,
    ensures
        rank_gt(a, b),
{
}

/// Ranking is a strict order: no rank is above itself, and above is
/// transitive, so "the best pane" is well defined.
pub proof fn lemma_rank_is_a_strict_order(a: PaneRank, b: PaneRank, c: PaneRank)
    ensures
        !rank_gt(a, a),
        rank_gt(a, b) && rank_gt(b, c) ==> rank_gt(a, c),
        rank_gt(a, b) ==> !rank_gt(b, a),
{
}

/// The local pane chosen is always a row that may be a target: never the
/// sidebar, a sidebar-roled pane, or a pane another sidebar holds.
pub proof fn lemma_local_pane_is_a_target(
    ls: Seq<Seq<char>>,
    paths: Seq<Option<usize>>,
    sidebar: (Seq<char>, Seq<char>, Seq<char>),
    job_name: Seq<char>,
    agent_tty: Option<Seq<char>>,
)
    ensures
        best_local(ls, paths, sidebar, job_name, agent_tty) matches Some((_, pane)) ==> exists|i: int|
            0 <= i < ls.len() && #[trigger] row_of(ls[i]).id == pane && !never_a_target(
                row_of(ls[i]),
                sidebar.0,
            ),
    decreases ls.len(),
{
    if ls.len() > 0 && paths.len() > 0 {
        lemma_local_pane_is_a_target(ls.drop_last(), paths.drop_last(), sidebar, job_name, agent_tty);
        if let Some((_, pane)) = best_local(ls.drop_last(), paths.drop_last(), sidebar, job_name, agent_tty) {
            let i = choose|i: int|
                0 <= i < ls.drop_last().len() && #[trigger] row_of(ls.drop_last()[i]).id == pane
                    && !never_a_target(row_of(ls.drop_last()[i]), sidebar.0);
            assert(ls.drop_last()[i] == ls[i]);
        }
        let last = ls.len() - 1;
        assert(ls.last() == ls[last]);
    }
}

/// The ssh route chosen is always a row that may be a target and runs a
/// remote-shell client.
pub proof fn lemma_route_is_a_client_target(
    ls: Seq<Seq<char>>,
    reaches: Seq<Option<Seq<char>>>,
    sidebar: (Seq<char>, Seq<char>, Seq<char>),
    alias: Seq<char>,
    hosts: Seq<(Seq<char>, Seq<char>)>,
)
    ensures
        best_route(ls, reaches, sidebar, alias, hosts) matches Some((_, route)) ==> exists|i: int|
            0 <= i < ls.len() && #[trigger] row_of(ls[i]).id == route.pane && ssh_candidate(
                row_of(ls[i]),
                sidebar.0,
            ),
    decreases ls.len(),
{
    if ls.len() > 0 && reaches.len() > 0 {
        lemma_route_is_a_client_target(ls.drop_last(), reaches.drop_last(), sidebar, alias, hosts);
        if let Some((_, route)) = best_route(ls.drop_last(), reaches.drop_last(), sidebar, alias, hosts) {
            let i = choose|i: int|
                0 <= i < ls.drop_last().len() && #[trigger] row_of(ls.drop_last()[i]).id == route.pane
                    && ssh_candidate(row_of(ls.drop_last()[i]), sidebar.0);
            assert(ls.drop_last()[i] == ls[i]);
        }
        let last = ls.len() - 1;
        assert(ls.last() == ls[last]);
    }
}

} // verus!
