//! Finding the `nerve-hub` binary.
//!
//! The order copies the hub binary search: Homebrew on Apple silicon first,
//! Intel Homebrew second, a `cargo install` third, and only then whatever the
//! user's shell would have found. Not finding it is a fail-open state, not an
//! error: the surface paints its offline placeholder and tmux goes on working.
use vstd::prelude::*;

use crate::machine::opt_string_view;
use crate::text::{extend_str, string_of};

verus! {

/// The binary this surface looks for.
pub const BINARY: &'static str = "nerve-hub";

/// The first fixed candidate: Homebrew on Apple silicon.
pub const HOMEBREW_CANDIDATE: &'static str = "/opt/homebrew/bin/nerve-hub";

/// The second fixed candidate: Intel Homebrew.
pub const LOCAL_CANDIDATE: &'static str = "/usr/local/bin/nerve-hub";

/// Where a `cargo install` puts binaries, relative to the home directory.
pub const CARGO_BIN: &'static str = ".cargo/bin";

/// `base` joined with the relative path `rel`, as `PathBuf::join` does on
/// Unix: a `/` between them unless `base` is empty or already ends in one.
pub open spec fn path_join(base: Seq<char>, rel: Seq<char>) -> Seq<char> {
    if base.len() == 0 || base.last() == '/' {
        base + rel
    } else {
        base + seq!['/'] + rel
    }
}

/// Where a `cargo install` under `home` puts the hub.
pub open spec fn cargo_candidate(home: Seq<char>) -> Seq<char> {
    path_join(path_join(home, CARGO_BIN@), BINARY@)
}

/// The files the search probes, in order.
pub open spec fn candidates_spec(home: Seq<char>) -> Seq<Seq<char>> {
    seq![HOMEBREW_CANDIDATE@, LOCAL_CANDIDATE@, cargo_candidate(home)]
}

/// `base` joined with `rel`.
fn join(base: &str, rel: &str) -> (r: String)
    ensures
        r@ == path_join(base@, rel@),
{
    let mut v: Vec<char> = Vec::new();
    extend_str(&mut v, base);
    let n = base.unicode_len();
    if n > 0 && base.get_char(n - 1) != '/' {
        v.push('/');
    }
    extend_str(&mut v, rel);
    assert(v@ =~= path_join(base@, rel@));
    string_of(&v)
}

/// The files the search probes, in order: the two fixed directories, then
/// `{home}/.cargo/bin`.
pub fn candidates(home: &str) -> (r: Vec<String>)
    ensures
        r@.len() == 3,
        forall|i: int| 0 <= i < 3 ==> #[trigger] r@[i]@ == candidates_spec(home@)[i],
{
    let cargo_dir = join(home, CARGO_BIN);
    let cargo = join(cargo_dir.as_str(), BINARY);
    let mut r: Vec<String> = Vec::new();
    r.push(HOMEBREW_CANDIDATE.to_owned());
    r.push(LOCAL_CANDIDATE.to_owned());
    r.push(cargo);
    r
}

/// The only thing the search asks the filesystem.
pub trait BinaryProbe {
    /// Whether `path` names a file this process may execute.
    fn is_executable(&self, path: &str) -> bool;

    /// The first `PATH` hit for `name`, as `which(1)` would answer it.
    fn on_path(&self, name: &str) -> Option<String>;
}

/// Searches the candidate directories in order, first hit wins.
pub struct HubLocator<P: BinaryProbe> {
    probe: P,
    home: String,
    asked: Ghost<Seq<(Seq<char>, bool)>>,
    path_asked: Ghost<Option<(Seq<char>, Option<Seq<char>>)>>,
}

impl<P: BinaryProbe> HubLocator<P> {
    /// `home` is what `~` expands to. Injected rather than read from the
    /// environment, so the search order is a unit test and not a machine.
    pub fn new(probe: P, home: &str) -> (l: Self)
        ensures
            l.home() == home@,
            l.probed() == Seq::<(Seq<char>, bool)>::empty(),
            l.path_probed() is None,
    {
        HubLocator { probe, home: home.to_owned(), asked: Ghost(Seq::empty()), path_asked: Ghost(None) }
    }

    /// The home directory the third candidate lives under.
    pub closed spec fn home(&self) -> Seq<char> {
        self.home@
    }

    /// What the last search asked the probe of each file, in order, with
    /// its answer.
    pub closed spec fn probed(&self) -> Seq<(Seq<char>, bool)> {
        self.asked@
    }

    /// What the last search asked `PATH`, with its answer, if it asked.
    pub closed spec fn path_probed(&self) -> Option<(Seq<char>, Option<Seq<char>>)> {
        self.path_asked@
    }

    /// The hub binary, or `None` when nothing is installed.
    ///
    /// Probes [`candidates`] in order and stops at the first the probe calls
    /// executable; only when none is does it ask `PATH` for [`BINARY`]. The
    /// answer is the file the probe affirmed, else what `PATH` answered.
    pub fn locate(&mut self) -> (r: Option<String>)
        ensures
            final(self).home() == old(self).home(),
            ({
                let asked = final(self).probed();
                let home = old(self).home();
                &&& 1 <= asked.len() <= 3
                &&& forall|k: int| 0 <= k < asked.len() ==> #[trigger] asked[k].0 == candidates_spec(home)[k]
                &&& forall|k: int| 0 <= k < asked.len() - 1 ==> !#[trigger] asked[k].1
                &&& if asked.last().1 {
                    &&& final(self).path_probed() is None
                    &&& opt_string_view(r) == Some(candidates_spec(home)[asked.len() - 1])
                } else {
                    &&& asked.len() == 3
                    &&& final(self).path_probed() matches Some((name, answer)) && name == BINARY@
                        && opt_string_view(r) == answer
                }
            }),
    {
        let files = candidates(self.home.as_str());
        let ghost home = self.home@;
        proof {
            self.asked@ = Seq::empty();
            self.path_asked@ = None;
        }
        let mut i: usize = 0;
        while i < files.len()
            invariant
                i <= files.len(),
                files@.len() == 3,
                self.home@ == home,
                home == old(self).home(),
                forall|k: int| 0 <= k < 3 ==> #[trigger] files@[k]@ == candidates_spec(home)[k],
                self.asked@.len() == i,
                self.path_asked@ is None,
                forall|k: int| 0 <= k < i ==> #[trigger] self.asked@[k].0 == candidates_spec(home)[k],
                forall|k: int| 0 <= k < i ==> !#[trigger] self.asked@[k].1,
            decreases files.len() - i,
        {
            let hit = self.probe.is_executable(files[i].as_str());
            proof {
                let before = self.asked@;
                self.asked@ = self.asked@.push((files@[i as int]@, hit));
                assert forall|k: int| 0 <= k < i + 1 implies #[trigger] self.asked@[k].0 == candidates_spec(home)[k] by {
                    if k < i {
                        assert(self.asked@[k] == before[k]);
                    }
                }
                assert forall|k: int| 0 <= k < i implies !#[trigger] self.asked@[k].1 by {
                    assert(self.asked@[k] == before[k]);
                }
            }
            if hit {
                let found = files[i].clone();
                assert(found@ == files@[i as int]@);
                return Some(found);
            }
            i = i + 1;
        }
        let path = self.probe.on_path(BINARY);
        proof {
            self.path_asked@ = Some((BINARY@, opt_string_view(path)));
        }
        path
    }
}

/// The index of the first candidate the probe affirmed, among the first
/// `hits.len()` (at most three) answers.
pub open spec fn first_hit(hits: Seq<bool>) -> Option<int>
    decreases hits.len(),
{
    if hits.len() == 0 {
        None
    } else {
        match first_hit(hits.drop_last()) {
            Some(k) => Some(k),
            None => if hits.last() && hits.len() <= 3 {
                Some(hits.len() - 1)
            } else {
                None
            },
        }
    }
}

/// What the search answers, given what the probe said of each candidate in
/// turn and what `PATH` said: the first affirmed candidate, else the `PATH`
/// answer.
pub open spec fn hub_choice(home: Seq<char>, hits: Seq<bool>, path: Option<Seq<char>>) -> Option<
    Seq<char>,
> {
    match first_hit(hits) {
        Some(k) => Some(candidates_spec(home)[k]),
        None => path,
    }
}

proof fn lemma_first_hit_push(hits: Seq<bool>, b: bool)
    requires
        first_hit(hits) is None,
        hits.len() < 3,
    ensures
        first_hit(hits.push(b)) == (if b {
            Some(hits.len() as int)
        } else {
            None::<int>
        }),
{
    assert(hits.push(b).drop_last() =~= hits);
}

proof fn lemma_no_hit(hits: Seq<bool>)
    requires
        forall|k: int| 0 <= k < hits.len() ==> !#[trigger] hits[k],
    ensures
        first_hit(hits) is None,
    decreases hits.len(),
{
    if hits.len() > 0 {
        lemma_no_hit(hits.drop_last());
    }
}

/// The search's answer from the probe's answers: `hits[k]` is what the probe
/// said of the `k`-th candidate, `on_path` what `PATH` said.
pub fn choose_hub(home: &str, hits: &[bool], on_path: Option<String>) -> (r: Option<String>)
    ensures
        opt_string_view(r) == hub_choice(home@, hits@, opt_string_view(on_path)),
{
    let files = candidates(home);
    let mut i: usize = 0;
    while i < hits.len() && i < 3
        invariant
            i <= hits.len(),
            i <= 3,
            files@.len() == 3,
            forall|k: int| 0 <= k < 3 ==> #[trigger] files@[k]@ == candidates_spec(home@)[k],
            forall|k: int| 0 <= k < i ==> !#[trigger] hits@[k],
        decreases hits.len() - i,
    {
        if hits[i] {
            proof {
                lemma_no_hit(hits@.subrange(0, i as int));
                lemma_first_hit_push(hits@.subrange(0, i as int), true);
                assert(hits@.subrange(0, i as int).push(true) =~= hits@.subrange(0, i + 1));
                lemma_first_hit_prefix(hits@, i + 1);
            }
            return Some(files[i].clone());
        }
        i = i + 1;
    }
    proof {
        lemma_no_hit(hits@.subrange(0, i as int));
        lemma_first_hit_prefix(hits@, i as int);
    }
    on_path
}

/// The first hit within a prefix is the first hit of the whole.
proof fn lemma_first_hit_prefix(hits: Seq<bool>, n: int)
    requires
        0 <= n <= hits.len(),
        first_hit(hits.subrange(0, n)) is Some || n >= 3 || n == hits.len(),
    ensures
        first_hit(hits) == first_hit(hits.subrange(0, n)),
    decreases hits.len() - n,
{
    if n < hits.len() {
        let longer = hits.subrange(0, n + 1);
        assert(longer.drop_last() =~= hits.subrange(0, n));
        if first_hit(hits.subrange(0, n)) is None {
            assert(n >= 3);
        }
        assert(first_hit(longer) == first_hit(hits.subrange(0, n)));
        lemma_first_hit_prefix(hits, n + 1);
    } else {
        assert(hits.subrange(0, n) =~= hits);
    }
}

/// `~` is a shell convenience, never a path: when the injected home holds no
/// tilde, no probed path does.
pub proof fn lemma_no_candidate_holds_a_tilde(home: Seq<char>)
    requires
        !home.contains('~'),
    ensures
        forall|i: int| 0 <= i < 3 ==> !(#[trigger] candidates_spec(home)[i]).contains('~'),
{
    reveal_strlit("/opt/homebrew/bin/nerve-hub");
    reveal_strlit("/usr/local/bin/nerve-hub");
    reveal_strlit(".cargo/bin");
    reveal_strlit("nerve-hub");
    let dir = path_join(home, CARGO_BIN@);
    assert(!dir.contains('~')) by {
        if dir.contains('~') {
            let k = choose|k: int| 0 <= k < dir.len() && dir[k] == '~';
            if k < home.len() {
                assert(home[k] == '~');
            }
        }
    }
    let file = path_join(dir, BINARY@);
    assert(!file.contains('~')) by {
        if file.contains('~') {
            let k = choose|k: int| 0 <= k < file.len() && file[k] == '~';
            if k < dir.len() {
                assert(dir[k] == '~');
            }
        }
    }
    assert(!HOMEBREW_CANDIDATE@.contains('~'));
    assert(!LOCAL_CANDIDATE@.contains('~'));
}

/// Only the third candidate follows the home directory: the two fixed ones
/// are the same whatever home is injected.
pub proof fn lemma_only_cargo_follows_home(a: Seq<char>, b: Seq<char>)
    ensures
        candidates_spec(a)[0] == candidates_spec(b)[0],
        candidates_spec(a)[1] == candidates_spec(b)[1],
        candidates_spec(a)[2] == cargo_candidate(a),
{
}

/// The least time, in milliseconds, between two starts of the hub: a hub
/// that will not start is not fired at the OS in a loop.
pub const SPAWN_INTERVAL_MS: u64 = 10000;

/// Whether starting the hub at `now_ms` comes too soon after the last start,
/// at `last_spawn_ms`, if there was one. A clock that seems to have gone
/// back counts as no time passed.
pub fn spawn_throttled(last_spawn_ms: Option<u64>, now_ms: u64) -> (r: bool)
    ensures
        r == (last_spawn_ms matches Some(at) && (if now_ms >= at {
            now_ms - at
        } else {
            0
        }) < SPAWN_INTERVAL_MS),
{
    match last_spawn_ms {
        Some(at) => now_ms.saturating_sub(at) < SPAWN_INTERVAL_MS,
        None => false,
    }
}

} // verus!
