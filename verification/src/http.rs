//! The little of HTTP/1.1 and of server-sent events the hub speaks on the
//! loopback: whether a response is a success, whether its body comes in
//! chunks and how long each is, and which lines make an event.
use vstd::prelude::*;

use crate::text::{chars_of, contains_str, lower, string_of, trim, word_spans, words};

verus! {

/// A status line answers success when its second word starts with `2`.
pub open spec fn status_ok_spec(line: Seq<char>) -> bool {
    let ws = words(line, false);
    ws.len() >= 2 && ws[1][0] == '2'
}

/// Whether a status line (`HTTP/1.1 200 OK`) answers success.
pub fn status_ok(line: &str) -> (b: bool)
    ensures
        b == status_ok_spec(line@),
{
    let v = chars_of(line);
    let spans = word_spans(&v, false);
    if spans.len() < 2 {
        return false;
    }
    let s = spans[1].start;
    proof {
        assert(crate::text::spans_text(v@, spans@)[1] == v@.subrange(s as int, spans@[1].end as int));
    }
    v[s] == '2'
}

/// The header that says a body comes in chunks: `Transfer-Encoding`, in any
/// case, naming `chunked`.
pub open spec fn chunked_header_spec(line: Seq<char>) -> bool {
    let h = lower(trim(line));
    &&& "transfer-encoding:"@.len() <= h.len()
    &&& h.take("transfer-encoding:"@.len() as int) == "transfer-encoding:"@
    &&& contains_str(h, "chunked"@)
}

/// Whether a header line says the body comes in chunks.
pub fn is_chunked_header(line: &str) -> (b: bool)
    ensures
        b == chunked_header_spec(line@),
{
    proof {
        reveal_strlit("transfer-encoding:");
    }
    let v = chars_of(line);
    let (a, e) = crate::text::trim_bounds(&v);
    let t = crate::text::sub_vec(&v, a, e);
    let h = crate::text::lower_vec(&t);
    let starts = crate::text::starts_with_at(&h, 0, "transfer-encoding:");
    assert(starts ==> h@.subrange(0, "transfer-encoding:"@.len() as int) =~= h@.take(
        "transfer-encoding:"@.len() as int,
    ));
    assert(h@.subrange(0, h.len() as int) =~= h@);
    starts && crate::text::contains_str_in(&h, 0, h.len(), "chunked")
}

/// The value of a hexadecimal digit, either case.
pub open spec fn hex_value(c: char) -> Option<nat> {
    if '0' <= c && c <= '9' {
        Some(((c as u32) - 48) as nat)
    } else if 'a' <= c && c <= 'f' {
        Some(((c as u32) - 87) as nat)
    } else if 'A' <= c && c <= 'F' {
        Some(((c as u32) - 55) as nat)
    } else {
        None
    }
}

pub open spec fn all_hex(s: Seq<char>) -> bool {
    forall|i: int| 0 <= i < s.len() ==> #[trigger] hex_value(s[i]) is Some
}

/// The value of a run of hexadecimal digits.
pub open spec fn hex_digits_value(s: Seq<char>) -> nat
    decreases s.len(),
{
    if s.len() == 0 {
        0
    } else {
        hex_digits_value(s.drop_last()) * 16 + match hex_value(s.last()) {
            Some(d) => d,
            None => 0,
        }
    }
}

/// What `usize::from_str_radix(s, 16)` answers: an optional `+`, then one
/// or more hexadecimal digits whose value fits.
pub open spec fn parse_hex_spec(s: Seq<char>) -> Option<usize> {
    let body = if s.len() > 0 && s[0] == '+' {
        s.drop_first()
    } else {
        s
    };
    if body.len() > 0 && all_hex(body) && hex_digits_value(body) <= usize::MAX {
        Some(hex_digits_value(body) as usize)
    } else {
        None
    }
}

/// The length a chunk-size line (`1a;ext=1`) announces: the hexadecimal
/// number before any `;`, trimmed.
pub open spec fn chunk_size_spec(line: Seq<char>) -> Option<usize> {
    parse_hex_spec(trim(crate::text::before_first(trim(line), ';')))
}

proof fn lemma_hex_digits_value_push(s: Seq<char>, c: char)
    ensures
        hex_digits_value(s.push(c)) == hex_digits_value(s) * 16 + match hex_value(c) {
            Some(d) => d,
            None => 0,
        },
{
    assert(s.push(c).drop_last() =~= s);
}

proof fn lemma_hex_digits_value_mono(s: Seq<char>, i: int)
    requires
        0 <= i <= s.len(),
    ensures
        hex_digits_value(s.take(i)) <= hex_digits_value(s),
    decreases s.len() - i,
{
    if i < s.len() {
        lemma_hex_digits_value_mono(s, i + 1);
        assert(s.take(i + 1) =~= s.take(i).push(s[i]));
        lemma_hex_digits_value_push(s.take(i), s[i]);
    } else {
        assert(s.take(i) =~= s);
    }
}

fn hex_digit_of(c: char) -> (r: Option<usize>)
    ensures
        match hex_value(c) {
            Some(d) => r == Some(d as usize),
            None => r is None,
        },
{
    if '0' <= c && c <= '9' {
        Some((c as u32 - 48) as usize)
    } else if 'a' <= c && c <= 'f' {
        Some((c as u32 - 87) as usize)
    } else if 'A' <= c && c <= 'F' {
        Some((c as u32 - 55) as usize)
    } else {
        None
    }
}

/// `usize::from_str_radix(v[from..to], 16)`.
fn parse_hex_in(v: &Vec<char>, from: usize, to: usize) -> (r: Option<usize>)
    requires
        from <= to <= v.len(),
    ensures
        r == parse_hex_spec(v@.subrange(from as int, to as int)),
{
    let ghost whole = v@.subrange(from as int, to as int);
    let body = if from < to && v[from] == '+' {
        from + 1
    } else {
        from
    };
    let ghost s = v@.subrange(body as int, to as int);
    assert(whole.len() > 0 && whole[0] == '+' ==> whole.drop_first() =~= s);
    assert(!(whole.len() > 0 && whole[0] == '+') ==> whole =~= s);
    if body == to {
        return None;
    }
    let mut acc: usize = 0;
    let mut i: usize = body;
    while i < to
        invariant
            body <= i <= to <= v.len(),
            body < to,
            s == v@.subrange(body as int, to as int),
            whole == v@.subrange(from as int, to as int),
            whole.len() > 0 && whole[0] == '+' ==> whole.drop_first() == s,
            !(whole.len() > 0 && whole[0] == '+') ==> whole == s,
            all_hex(s.take(i - body)),
            acc == hex_digits_value(s.take(i - body)),
        decreases to - i,
    {
        let c = v[i];
        assert(s[i - body] == c);
        let d = match hex_digit_of(c) {
            Some(d) => d,
            None => {
                assert(!all_hex(s));
                return None;
            },
        };
        assert(s.take(i - body + 1) =~= s.take(i - body).push(c));
        proof {
            lemma_hex_digits_value_push(s.take(i - body), c);
        }
        if acc > (usize::MAX - d) / 16 {
            proof {
                assert(acc * 16 + d > usize::MAX) by (nonlinear_arith)
                    requires
                        acc > (usize::MAX - d) / 16,
                        d <= 15,
                ;
                lemma_hex_digits_value_mono(s, i - body + 1);
            }
            return None;
        }
        assert(acc * 16 + d <= usize::MAX) by (nonlinear_arith)
            requires
                acc <= (usize::MAX - d) / 16,
                d <= 15,
        ;
        acc = acc * 16 + d;
        i = i + 1;
        assert forall|k: int| 0 <= k < s.take(i - body).len() implies #[trigger] hex_value(
            s.take(i - body)[k],
        ) is Some by {
            if k < i - 1 - body {
                assert(s.take(i - body)[k] == s.take(i - 1 - body)[k]);
            }
        }
    }
    assert(s.take(to - body) =~= s);
    Some(acc)
}

/// The length a chunk-size line announces; `None` when it names none.
pub fn chunk_size(line: &str) -> (r: Option<usize>)
    ensures
        r == chunk_size_spec(line@),
{
    let v = chars_of(line);
    let (a, e) = crate::text::trim_bounds(&v);
    let k = crate::text::before_first_in(&v, a, e, ';');
    let (s, t) = crate::text::trim_range(&v, a, k);
    proof {
        assert(v@.subrange(a as int, e as int) == trim(line@));
    }
    parse_hex_in(&v, s, t)
}

// ───────────────────────────── server-sent events ─────────────────────────────

/// A line without the `\r` and `\n` characters that end it.
pub open spec fn line_text_spec(line: Seq<char>) -> Seq<char>
    decreases line.len(),
{
    if line.len() > 0 && (line.last() == '\r' || line.last() == '\n') {
        line_text_spec(line.drop_last())
    } else {
        line
    }
}

/// What a `data:` line carries: what follows the colon, less one leading
/// space; `None` for any other line.
pub open spec fn data_of(line: Seq<char>) -> Option<Seq<char>> {
    if "data:"@.len() <= line.len() && line.take("data:"@.len() as int) == "data:"@ {
        let rest = line.skip("data:"@.len() as int);
        Some(
            if rest.len() > 0 && rest[0] == ' ' {
                rest.drop_first()
            } else {
                rest
            },
        )
    } else {
        None
    }
}

/// An event's data so far, with one more `data:` payload: joined by a
/// newline, and an empty start taking the payload as it is.
pub open spec fn gather(data: Seq<char>, payload: Seq<char>) -> Seq<char> {
    if data.len() == 0 {
        payload
    } else {
        data + seq!['\n'] + payload
    }
}

/// A line of the stream, its line ending dropped.
pub fn line_text(line: &str) -> (r: String)
    ensures
        r@ == line_text_spec(line@),
{
    let v = chars_of(line);
    let mut e = v.len();
    assert(v@.subrange(0, v.len() as int) =~= v@);
    while e > 0 && (v[e - 1] == '\r' || v[e - 1] == '\n')
        invariant
            e <= v.len(),
            line_text_spec(v@) == line_text_spec(v@.subrange(0, e as int)),
        decreases e,
    {
        assert(v@.subrange(0, e as int).drop_last() =~= v@.subrange(0, e - 1));
        e = e - 1;
    }
    crate::text::string_of_range(&v, 0, e)
}

/// The events of a stream, read a line at a time: `data:` lines gather into
/// one event, which a blank line ends; other lines are ignored.
pub struct EventReader {
    data: Vec<char>,
}

impl EventReader {
    /// The data gathered for the event under way.
    pub closed spec fn pending(&self) -> Seq<char> {
        self.data@
    }

    /// A reader between events.
    pub fn new() -> (r: Self)
        ensures
            r.pending() == Seq::<char>::empty(),
    {
        EventReader { data: Vec::new() }
    }

    /// Take one line, its line ending dropped: the event it ends, if any. A
    /// blank line with nothing gathered ends nothing.
    pub fn feed(&mut self, line: &str) -> (r: Option<String>)
        ensures
            line@.len() == 0 ==> final(self).pending() == Seq::<char>::empty() && match r {
                Some(event) => old(self).pending().len() > 0 && event@ == old(self).pending(),
                None => old(self).pending().len() == 0,
            },
            line@.len() > 0 ==> r is None && final(self).pending() == match data_of(line@) {
                Some(payload) => gather(old(self).pending(), payload),
                None => old(self).pending(),
            },
    {
        proof {
            reveal_strlit("data:");
        }
        let v = chars_of(line);
        if v.len() == 0 {
            if self.data.len() == 0 {
                return None;
            }
            let event = string_of(&self.data);
            self.data = Vec::new();
            return Some(event);
        }
        if !crate::text::starts_with_at(&v, 0, "data:") {
            return None;
        }
        proof {
            assert(v@.subrange(0, 5) =~= v@.take(5));
        }
        let mut from: usize = 5;
        if from < v.len() && v[from] == ' ' {
            from = 6;
        }
        proof {
            let rest = v@.skip(5);
            if rest.len() > 0 && rest[0] == ' ' {
                assert(rest.drop_first() =~= v@.subrange(from as int, v.len() as int));
            } else {
                assert(rest =~= v@.subrange(from as int, v.len() as int));
            }
        }
        if self.data.len() > 0 {
            self.data.push('\n');
        }
        crate::text::extend_range(&mut self.data, &v, from, v.len());
        None
    }
}

} // verus!
