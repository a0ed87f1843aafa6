//! One snapshot of the process table.
//!
//! A pane scan asks two questions of the process table: which terminal a pid
//! sits on, and where the ssh session on a terminal is connected. Both are
//! answered by one listing (`ps -ax -o pid= -o tty= -o command=`), read here
//! into rows; taking the listing is the caller's business.
use vstd::prelude::*;

use crate::ssh::parse_destination_spec;
use crate::text::{
    char_is_whitespace, chars_of, is_ws, lines, parse_u32_in, parse_u32_spec, range_eq,
    skip_sep, string_of_range, trim, trim_range,
};

verus! {

// ───────────────────────────── terminals ─────────────────────────────

pub open spec fn dev_prefix() -> Seq<char> {
    seq!['/', 'd', 'e', 'v', '/']
}

pub open spec fn tty_prefix() -> Seq<char> {
    seq!['t', 't', 'y']
}

/// `s` with every leading `/dev/` removed.
pub open spec fn strip_dev(s: Seq<char>) -> Seq<char>
    decreases s.len(),
{
    if s.len() >= 5 && s.take(5) == dev_prefix() {
        strip_dev(s.skip(5))
    } else {
        s
    }
}

/// What [`normalize_tty`] answers: `/dev/ttys001`, `ttys001` and `s001` are
/// one terminal (`s001`); a terminal that is none (`??`, `-`, empty) is the
/// empty name.
pub open spec fn normalize_tty_spec(tty: Seq<char>) -> Seq<char> {
    let t = strip_dev(trim(tty));
    if t.len() == 0 || t[0] == '?' || t == seq!['-'] {
        seq![]
    } else if t.len() > 3 && t.take(3) == tty_prefix() {
        t.skip(3)
    } else {
        t
    }
}

/// The normalised name of the terminal `v[from..to]`, as positions in `v`.
fn normalized_in(v: &Vec<char>, from: usize, to: usize) -> (r: (usize, usize))
    requires
        from <= to <= v.len(),
    ensures
        r.0 <= r.1 <= v.len(),
        v@.subrange(r.0 as int, r.1 as int) == normalize_tty_spec(
            v@.subrange(from as int, to as int),
        ),
{
    let (mut a, b) = trim_range(v, from, to);
    proof {
        reveal_strlit("/dev/");
    }
    while b - a >= 5 && range_eq(v, a, a + 5, "/dev/")
        invariant
            from <= a <= b <= to <= v.len(),
            "/dev/"@ == dev_prefix(),
            strip_dev(trim(v@.subrange(from as int, to as int))) == strip_dev(
                v@.subrange(a as int, b as int),
            ),
        decreases b - a,
    {
        assert(v@.subrange(a as int, b as int).take(5) =~= v@.subrange(a as int, a + 5));
        assert(v@.subrange(a as int, b as int).skip(5) =~= v@.subrange(a + 5, b as int));
        a = a + 5;
    }
    let ghost t = v@.subrange(a as int, b as int);
    proof {
        reveal_strlit("tty");
        if t.len() >= 5 {
            assert(t.take(5) =~= v@.subrange(a as int, a + 5));
        }
        if t.len() >= 3 {
            assert(t.take(3) =~= v@.subrange(a as int, a + 3));
        }
        assert(strip_dev(t) == t);
        assert(t.len() > 0 ==> t[0] == v@[a as int]);
        assert(strip_dev(trim(v@.subrange(from as int, to as int))) == t);
    }
    if a == b || v[a] == '?' || (b - a == 1 && v[a] == '-') {
        assert(b - a == 1 && v[a as int] == '-' ==> t =~= seq!['-']);
        assert(v@.subrange(a as int, a as int) =~= Seq::<char>::empty());
        return (a, a);
    }
    assert(t.len() == 1 ==> (t == seq!['-'] <==> t[0] == '-'));
    assert(t.len() != 1 ==> t != seq!['-']);
    assert(normalize_tty_spec(v@.subrange(from as int, to as int)) == (if t.len() > 3 && t.take(3)
        == tty_prefix() {
        t.skip(3)
    } else {
        t
    }));
    assert("tty"@ == tty_prefix());
    if b - a > 3 && range_eq(v, a, a + 3, "tty") {
        assert(t.skip(3) =~= v@.subrange(a + 3, b as int));
        (a + 3, b)
    } else {
        (a, b)
    }
}

/// One terminal under every spelling: `/dev/ttys001`, `ttys001` and `s001`
/// are `s001`, `/dev/pts/3` is `pts/3`; `??` and `-` name no terminal.
pub fn normalize_tty(tty: &str) -> (r: String)
    ensures
        r@ == normalize_tty_spec(tty@),
{
    let v = chars_of(tty);
    let (a, b) = normalized_in(&v, 0, v.len());
    assert(v@.subrange(0, v.len() as int) =~= v@);
    string_of_range(&v, a, b)
}

// ───────────────────────────── listing lines ─────────────────────────────

/// Position of the first whitespace character.
pub open spec fn first_ws(s: Seq<char>) -> Option<nat>
    decreases s.len(),
{
    if s.len() == 0 {
        None
    } else if is_ws(s[0]) {
        Some(0)
    } else {
        match first_ws(s.drop_first()) {
            Some(i) => Some(i + 1),
            None => None,
        }
    }
}

/// One listing line (` 12345 ttys001 -zsh`) as pid, raw terminal and the
/// command with its arguments.
pub open spec fn parse_line_spec(raw: Seq<char>) -> Option<(u32, Seq<char>, Seq<char>)> {
    let line = trim(raw);
    if line.len() == 0 {
        None
    } else {
        match first_ws(line) {
            None => None,
            Some(p) => match parse_u32_spec(line.take(p as int)) {
                None => None,
                Some(pid) => {
                    let rest = skip_sep(line.skip(p as int), false);
                    let t = match first_ws(rest) {
                        Some(q) => q as int,
                        None => rest.len() as int,
                    };
                    Some((pid, rest.take(t), skip_sep(rest.skip(t), false)))
                },
            },
        }
    }
}

proof fn lemma_first_ws(s: Seq<char>, k: int)
    requires
        0 <= k <= s.len(),
        forall|m: int| 0 <= m < k ==> !is_ws(#[trigger] s[m]),
        k == s.len() || is_ws(s[k]),
    ensures
        first_ws(s) == (if k == s.len() {
            None::<nat>
        } else {
            Some(k as nat)
        }),
    decreases k,
{
    if k > 0 {
        assert forall|m: int| 0 <= m < k - 1 implies !is_ws(#[trigger] s.drop_first()[m]) by {
            assert(s.drop_first()[m] == s[m + 1]);
        }
        lemma_first_ws(s.drop_first(), k - 1);
    }
}

/// The first whitespace in `v[from..to]`, or `to`.
pub fn find_ws(v: &Vec<char>, from: usize, to: usize) -> (k: usize)
    requires
        from <= to <= v.len(),
    ensures
        from <= k <= to,
        first_ws(v@.subrange(from as int, to as int)) == (if k == to {
            None::<nat>
        } else {
            Some((k - from) as nat)
        }),
{
    let mut k = from;
    while k < to && !char_is_whitespace(v[k])
        invariant
            from <= k <= to <= v.len(),
            forall|m: int| from <= m < k ==> !is_ws(#[trigger] v@[m]),
        decreases to - k,
    {
        k = k + 1;
    }
    proof {
        let s = v@.subrange(from as int, to as int);
        assert forall|m: int| 0 <= m < k - from implies !is_ws(#[trigger] s[m]) by {
            assert(s[m] == v@[from + m]);
        }
        lemma_first_ws(s, k - from);
    }
    k
}

/// Past the whitespace that starts `v[from..to]`.
pub fn skip_ws(v: &Vec<char>, from: usize, to: usize) -> (k: usize)
    requires
        from <= to <= v.len(),
    ensures
        from <= k <= to,
        skip_sep(v@.subrange(from as int, to as int), false) == v@.subrange(k as int, to as int),
{
    let mut k = from;
    while k < to && char_is_whitespace(v[k])
        invariant
            from <= k <= to <= v.len(),
            forall|m: int| from <= m < k ==> is_ws(#[trigger] v@[m]),
        decreases to - k,
    {
        k = k + 1;
    }
    proof {
        let s = v@.subrange(from as int, to as int);
        assert forall|m: int| 0 <= m < k - from implies crate::text::is_sep(#[trigger] s[m], false) by {
            assert(s[m] == v@[from + m]);
        }
        if k < to {
            assert(s[k - from] == v@[k as int]);
        }
        crate::text::lemma_skip_sep_run(s, false, 0, k - from);
        assert(s.skip(0) =~= s);
        assert(s.skip(k - from) =~= v@.subrange(k as int, to as int));
    }
    k
}

/// A listing line's pid, and where its terminal and command stand in `v`.
fn parse_line_in(v: &Vec<char>, from: usize, to: usize) -> (r: Option<(u32, usize, usize, usize, usize)>)
    requires
        from <= to <= v.len(),
    ensures
        match r {
            Some((pid, ts, te, as_, ae)) => ts <= te <= v.len() && as_ <= ae <= v.len()
                && parse_line_spec(v@.subrange(from as int, to as int)) == Some(
                (pid, v@.subrange(ts as int, te as int), v@.subrange(as_ as int, ae as int)),
            ),
            None => parse_line_spec(v@.subrange(from as int, to as int)).is_none(),
        },
{
    let (a, b) = trim_range(v, from, to);
    let ghost line = v@.subrange(a as int, b as int);
    if a == b {
        return None;
    }
    let p = find_ws(v, a, b);
    if p == b {
        return None;
    }
    assert(line.take(p - a) =~= v@.subrange(a as int, p as int));
    let pid = match parse_u32_in(v, a, p) {
        Some(n) => n,
        None => return None,
    };
    assert(line.skip(p - a) =~= v@.subrange(p as int, b as int));
    let r = skip_ws(v, p, b);
    let q = find_ws(v, r, b);
    let s = skip_ws(v, q, b);
    let ghost rest = v@.subrange(r as int, b as int);
    assert(rest.take(q - r) =~= v@.subrange(r as int, q as int));
    assert(rest.skip(q - r) =~= v@.subrange(q as int, b as int));
    Some((pid, r, q, s, b))
}

// ───────────────────────────── the table ─────────────────────────────

/// One process: its pid, its terminal (normalised) and its command line.
pub struct ProcRow {
    pub pid: u32,
    pub tty: String,
    pub args: String,
}

/// The rows a listing text yields, in listing order: each line that parses,
/// with its terminal normalised.
pub open spec fn parse_rows(ls: Seq<Seq<char>>) -> Seq<(u32, Seq<char>, Seq<char>)>
    decreases ls.len(),
{
    if ls.len() == 0 {
        seq![]
    } else {
        match parse_line_spec(ls.last()) {
            None => parse_rows(ls.drop_last()),
            Some((pid, tty, args)) => parse_rows(ls.drop_last()).push(
                (pid, normalize_tty_spec(tty), args),
            ),
        }
    }
}

/// The rows of a whole listing.
pub open spec fn parse_table(text: Seq<char>) -> Seq<(u32, Seq<char>, Seq<char>)> {
    parse_rows(lines(text))
}

/// The last row for `pid`: a pid listed twice is known by its later row.
pub open spec fn last_row(rows: Seq<(u32, Seq<char>, Seq<char>)>, pid: u32) -> Option<int>
    decreases rows.len(),
{
    if rows.len() == 0 {
        None
    } else if rows.last().0 == pid {
        Some(rows.len() - 1)
    } else {
        last_row(rows.drop_last(), pid)
    }
}

/// The pids of the rows on terminal `tty`, in listing order.
pub open spec fn pids_with_tty(rows: Seq<(u32, Seq<char>, Seq<char>)>, tty: Seq<char>) -> Seq<u32>
    decreases rows.len(),
{
    if rows.len() == 0 {
        seq![]
    } else if rows.last().1 == tty {
        pids_with_tty(rows.drop_last(), tty).push(rows.last().0)
    } else {
        pids_with_tty(rows.drop_last(), tty)
    }
}

/// What [`ProcTable::tty_of`] answers.
pub open spec fn tty_of_spec(rows: Seq<(u32, Seq<char>, Seq<char>)>, pid: u32) -> Option<
    Seq<char>,
> {
    match last_row(rows, pid) {
        Some(i) => if rows[i].1.len() > 0 {
            Some(rows[i].1)
        } else {
            None
        },
        None => None,
    }
}

/// What [`ProcTable::pids_on_tty`] answers.
pub open spec fn pids_on_tty_spec(rows: Seq<(u32, Seq<char>, Seq<char>)>, tty: Seq<char>) -> Seq<
    u32,
> {
    let key = normalize_tty_spec(tty);
    if key.len() == 0 {
        seq![]
    } else {
        pids_with_tty(rows, key)
    }
}

/// The first destination among the processes `pids`, each read from its
/// last row.
pub open spec fn first_destination(
    rows: Seq<(u32, Seq<char>, Seq<char>)>,
    pids: Seq<u32>,
) -> Option<Seq<char>>
    decreases pids.len(),
{
    if pids.len() == 0 {
        None
    } else {
        let here = match last_row(rows, pids[0]) {
            Some(i) => parse_destination_spec(rows[i].2),
            None => None,
        };
        match here {
            Some(d) => Some(d),
            None => first_destination(rows, pids.drop_first()),
        }
    }
}

/// What [`ProcTable::destination_on_tty`] answers.
pub open spec fn destination_on_tty_spec(
    rows: Seq<(u32, Seq<char>, Seq<char>)>,
    tty: Seq<char>,
) -> Option<Seq<char>> {
    first_destination(rows, pids_with_tty(rows, normalize_tty_spec(tty)))
}

/// A snapshot of the process table: pid → terminal and command, and
/// terminal → pids.
pub struct ProcTable {
    rows: Vec<ProcRow>,
}

pub open spec fn row_views(rows: Seq<ProcRow>) -> Seq<(u32, Seq<char>, Seq<char>)> {
    rows.map_values(|r: ProcRow| (r.pid, r.tty@, r.args@))
}

impl View for ProcTable {
    type V = Seq<(u32, Seq<char>, Seq<char>)>;

    closed spec fn view(&self) -> Seq<(u32, Seq<char>, Seq<char>)> {
        row_views(self.rows@)
    }
}

impl Default for ProcTable {
    fn default() -> (r: Self)
        ensures
            r@ == Seq::<(u32, Seq<char>, Seq<char>)>::empty(),
    {
        let r = ProcTable { rows: Vec::new() };
        assert(r@ =~= Seq::<(u32, Seq<char>, Seq<char>)>::empty());
        r
    }
}

/// Reads a `ps -ax -o pid= -o tty= -o command=` listing into a table; lines
/// that are not a process are skipped.
pub fn parse(text: &str) -> (table: ProcTable)
    ensures
        table@ == parse_table(text@),
{
    let v = chars_of(text);
    let ranges = crate::text::line_ranges(&v);
    let ghost ls = crate::text::ranges_text(v@, ranges@);
    let mut rows: Vec<ProcRow> = Vec::new();
    let mut i: usize = 0;
    assert(row_views(rows@) =~= parse_rows(ls.take(0)));
    while i < ranges.len()
        invariant
            i <= ranges.len(),
            v@ == text@,
            ls == crate::text::ranges_text(v@, ranges@),
            ls == lines(v@),
            crate::text::ranges_valid(v@, ranges@),
            row_views(rows@) == parse_rows(ls.take(i as int)),
        decreases ranges.len() - i,
    {
        let start = ranges[i].start;
        let end = ranges[i].end;
        assert(ls.take(i + 1).drop_last() =~= ls.take(i as int));
        assert(ls.take(i + 1).last() == v@.subrange(start as int, end as int));
        match parse_line_in(&v, start, end) {
            None => {},
            Some((pid, ts, te, as_, ae)) => {
                let (ns, ne) = normalized_in(&v, ts, te);
                let row = ProcRow {
                    pid,
                    tty: string_of_range(&v, ns, ne),
                    args: string_of_range(&v, as_, ae),
                };
                let ghost before = rows@;
                rows.push(row);
                assert(row_views(rows@) =~= row_views(before).push(
                    (pid, v@.subrange(ns as int, ne as int), v@.subrange(as_ as int, ae as int)),
                ));
            },
        }
        i = i + 1;
    }
    assert(ls.take(ranges.len() as int) =~= ls);
    ProcTable { rows }
}

impl ProcTable {
    /// The index of the last row for `pid`.
    fn last_row_exec(&self, pid: u32) -> (r: Option<usize>)
        ensures
            match r {
                Some(i) => i < self@.len() && last_row(self@, pid) == Some(i as int),
                None => last_row(self@, pid).is_none(),
            },
    {
        let ghost rows = self@;
        let mut k = self.rows.len();
        assert(rows.take(k as int) =~= rows);
        while k > 0
            invariant
                k <= self.rows.len(),
                rows == self@,
                rows.len() == self.rows.len(),
                last_row(rows, pid) == last_row(rows.take(k as int), pid),
            decreases k,
        {
            assert(rows.take(k as int).drop_last() =~= rows.take(k - 1));
            assert(rows.take(k as int).last() == rows[k - 1]);
            if self.rows[k - 1].pid == pid {
                return Some(k - 1);
            }
            k = k - 1;
        }
        assert(rows.take(self.rows.len() as int) =~= rows);
        None
    }

    /// Controlling terminal of `pid`, normalised (`s001`, `pts/3`); `None`
    /// for a pid not listed or on no terminal.
    pub fn tty_of(&self, pid: u32) -> (r: Option<&str>)
        ensures
            crate::machine::opt_view(r) == tty_of_spec(self@, pid),
    {
        assert(self@.take(self.rows.len() as int) =~= self@);
        match self.last_row_exec(pid) {
            Some(i) => {
                let tty = self.rows[i].tty.as_str();
                if tty.unicode_len() > 0 {
                    Some(tty)
                } else {
                    None
                }
            },
            None => None,
        }
    }

    /// The pids of the rows on terminal `key` (already normalised).
    fn pids_with_tty_exec(&self, key: &String) -> (r: Vec<u32>)
        ensures
            r@ == pids_with_tty(self@, key@),
    {
        let ghost rows = self@;
        let mut r: Vec<u32> = Vec::new();
        let mut i: usize = 0;
        assert(rows.take(0) =~= Seq::<(u32, Seq<char>, Seq<char>)>::empty());
        while i < self.rows.len()
            invariant
                i <= self.rows.len(),
                rows == self@,
                rows.len() == self.rows.len(),
                r@ == pids_with_tty(rows.take(i as int), key@),
            decreases self.rows.len() - i,
        {
            assert(rows.take(i + 1).drop_last() =~= rows.take(i as int));
            assert(rows.take(i + 1).last() == rows[i as int]);
            if self.rows[i].tty == *key {
                r.push(self.rows[i].pid);
            }
            i = i + 1;
        }
        assert(rows.take(self.rows.len() as int) =~= rows);
        r
    }

    /// Every pid whose controlling terminal is `tty`, under any spelling of
    /// it, in listing order.
    pub fn pids_on_tty(&self, tty: &str) -> (r: Vec<u32>)
        ensures
            r@ == pids_on_tty_spec(self@, tty@),
    {
        let key = normalize_tty(tty);
        if key.unicode_len() == 0 {
            return Vec::new();
        }
        self.pids_with_tty_exec(&key)
    }

    /// The first ssh or mosh destination among the processes on `tty`.
    pub fn destination_on_tty(&self, tty: &str) -> (r: Option<String>)
        ensures
            match r {
                Some(d) => destination_on_tty_spec(self@, tty@) == Some(d@),
                None => destination_on_tty_spec(self@, tty@).is_none(),
            },
    {
        let key = normalize_tty(tty);
        let pids = self.pids_with_tty_exec(&key);
        let ghost rows = self@;
        let mut k: usize = 0;
        assert(pids@.skip(0) =~= pids@);
        while k < pids.len()
            invariant
                k <= pids.len(),
                rows == self@,
                rows.len() == self.rows.len(),
                destination_on_tty_spec(rows, tty@) == first_destination(rows, pids@.skip(k as int)),
            decreases pids.len() - k,
        {
            assert(pids@.skip(k as int).drop_first() =~= pids@.skip(k + 1));
            assert(pids@.skip(k as int)[0] == pids@[k as int]);
            match self.last_row_exec(pids[k]) {
                Some(i) => {
                    match crate::ssh::parse_destination(self.rows[i].args.as_str()) {
                        Some(d) => return Some(d.to_owned()),
                        None => {},
                    }
                },
                None => {},
            }
            k = k + 1;
        }
        assert(pids@.skip(k as int) =~= Seq::<u32>::empty());
        None
    }
}

// ───────────────────────────── laws ─────────────────────────────

/// `/dev/tty…`, `tty…` and the bare name are one terminal: for a bare name
/// (not blank at either end, not itself starting with `/dev/` or `tty`, and
/// a terminal at all) all three spellings normalise to the bare name.
pub proof fn lemma_tty_spellings_agree(name: Seq<char>)
    requires
        name.len() > 0,
        !is_ws(name[0]),
        !is_ws(name.last()),
        strip_dev(name) == name,
        !(name.len() >= 3 && name.take(3) == tty_prefix()),
        name[0] != '?',
        name != seq!['-'],
    ensures
        normalize_tty_spec(dev_prefix() + tty_prefix() + name) == name,
        normalize_tty_spec(tty_prefix() + name) == name,
        normalize_tty_spec(name) == name,
{
    let short = tty_prefix() + name;
    let long = dev_prefix() + short;
    lemma_trim_plain(name);
    lemma_trim_plain(short);
    lemma_trim_plain(long);
    assert(long.take(5) =~= dev_prefix());
    assert(long.skip(5) =~= short);
    assert(short.take(3) =~= tty_prefix());
    assert(short.skip(3) =~= name);
    assert(short.len() >= 5 ==> short.take(5)[0] == 't');
    assert(strip_dev(short) == short);
    assert(strip_dev(long) == short);
    assert(dev_prefix() + tty_prefix() + name =~= long);
}

/// A text that neither starts nor ends with whitespace is its own trim.
proof fn lemma_trim_plain(s: Seq<char>)
    requires
        s.len() > 0,
        !is_ws(s[0]),
        !is_ws(s.last()),
    ensures
        trim(s) == s,
{
}

/// The terminal a pid is on lists that pid among its processes.
pub proof fn lemma_tty_of_lists_the_pid(rows: Seq<(u32, Seq<char>, Seq<char>)>, pid: u32)
    ensures
        tty_of_spec(rows, pid) matches Some(t) ==> pids_with_tty(rows, t).contains(pid),
    decreases rows.len(),
{
    if rows.len() > 0 && rows.last().0 != pid {
        lemma_tty_of_lists_the_pid(rows.drop_last(), pid);
        let rest = rows.drop_last();
        if let Some(i) = last_row(rest, pid) {
            lemma_last_row_in_range(rest, pid);
            assert(rows[i] == rest[i]);
            if rest[i].1.len() > 0 {
                let ps = pids_with_tty(rest, rest[i].1);
                let k = choose|k: int| 0 <= k < ps.len() && ps[k] == pid;
                if rows.last().1 == rest[i].1 {
                    assert(ps.push(rows.last().0)[k] == pid);
                }
            }
        }
    } else if rows.len() > 0 {
        let ps = pids_with_tty(rows.drop_last(), rows.last().1);
        assert(ps.push(pid)[ps.len() as int] == pid);
    }
}

proof fn lemma_last_row_in_range(rows: Seq<(u32, Seq<char>, Seq<char>)>, pid: u32)
    ensures
        last_row(rows, pid) matches Some(i) ==> 0 <= i < rows.len() && rows[i].0 == pid,
    decreases rows.len(),
{
    if rows.len() > 0 && rows.last().0 != pid {
        lemma_last_row_in_range(rows.drop_last(), pid);
    }
}

} // verus!
