//! Rendering a tally into the `@nerve_status` text `status-right` shows.
//!
//! The template language, whole:
//!
//! 1. A template is split on runs of ASCII whitespace into segments.
//! 2. Count tokens are `{problem} {ask} {attention} {waiting} {running}
//!    {monitor} {success} {inactive} {total}`; each renders as decimal digits.
//! 3. A segment whose count tokens all render `0` is dropped whole — colour
//!    markers, glyphs and punctuation with it.
//! 4. A segment containing no count token is a literal separator and is
//!    always kept.
//! 5. An unrecognised `{token}` is left verbatim and is not a count token.
//! 6. Surviving segments are joined with a single space.
//!
//! Placeholders are `{token}` rather than `#{token}` because tmux expands an
//! option value a second time when `status-right` interpolates it. That same
//! second expansion is why a template's `#[fg=…]` markers are left alone while
//! every `#` in producer text goes through [`escape_dynamic`] first.
use vstd::prelude::*;

use crate::tally::Tally;
use crate::text::{
    chars_of, decimal, extend_range, find_char, find_char_from, join, lemma_find_char_spec,
    push_decimal, range_eq, spans_text, string_of, word_spans, words,
};

verus! {

// ───────────────────────────── escaping producer text ─────────────────────────────

/// `s` with every `#` doubled.
pub open spec fn escape(s: Seq<char>) -> Seq<char>
    decreases s.len(),
{
    if s.len() == 0 {
        seq![]
    } else {
        (if s[0] == '#' {
            seq!['#', '#']
        } else {
            seq![s[0]]
        }) + escape(s.drop_first())
    }
}

/// Reading an escaped text back: `##` is one `#`.
pub open spec fn unescape(s: Seq<char>) -> Seq<char>
    decreases s.len(),
{
    if s.len() == 0 {
        seq![]
    } else if s.len() >= 2 && s[0] == '#' && s[1] == '#' {
        seq!['#'] + unescape(s.skip(2))
    } else {
        seq![s[0]] + unescape(s.drop_first())
    }
}

/// Escaping works character by character: the escape of two texts one
/// after the other is their escapes one after the other.
pub proof fn lemma_escape_concat(a: Seq<char>, b: Seq<char>)
    ensures
        escape(a + b) == escape(a) + escape(b),
    decreases a.len(),
{
    if a.len() == 0 {
        assert(a + b =~= b);
    } else {
        assert((a + b).drop_first() =~= a.drop_first() + b);
        lemma_escape_concat(a.drop_first(), b);
        assert((a + b)[0] == a[0]);
    }
}

/// Escaping loses nothing: reading the escaped text back gives the producer
/// text unchanged, so two different texts never escape to the same value.
pub proof fn lemma_unescape_escape(s: Seq<char>)
    ensures
        unescape(escape(s)) == s,
    decreases s.len(),
{
    if s.len() > 0 {
        lemma_unescape_escape(s.drop_first());
        let e = escape(s);
        if s[0] == '#' {
            assert(e.skip(2) =~= escape(s.drop_first()));
        } else {
            assert(e.drop_first() =~= escape(s.drop_first()));
        }
        assert(s =~= seq![s[0]] + s.drop_first());
    }
}

/// How many `#` the text `s` holds.
pub open spec fn hash_count(s: Seq<char>) -> nat
    decreases s.len(),
{
    if s.len() == 0 {
        0
    } else {
        (if s[0] == '#' {
            1nat
        } else {
            0nat
        }) + hash_count(s.drop_first())
    }
}

/// Escaping doubles every `#` and touches nothing else: the escape is one
/// character longer per `#`, holds twice as many `#`, and a text with no
/// `#` escapes to itself.
pub proof fn lemma_escape_doubles_hashes(s: Seq<char>)
    ensures
        escape(s).len() == s.len() + hash_count(s),
        hash_count(escape(s)) == 2 * hash_count(s),
        hash_count(s) == 0 ==> escape(s) == s,
    decreases s.len(),
{
    if s.len() > 0 {
        lemma_escape_doubles_hashes(s.drop_first());
        let e = escape(s);
        let rest = escape(s.drop_first());
        if s[0] == '#' {
            assert(e.drop_first() =~= seq!['#'] + rest);
            assert((seq!['#'] + rest).drop_first() =~= rest);
            assert(hash_count(seq!['#'] + rest) == 1 + hash_count(rest));
            assert(hash_count(e) == 1 + hash_count(e.drop_first()));
        } else {
            assert(e.drop_first() =~= rest);
            assert(hash_count(e) == hash_count(rest));
            if hash_count(s) == 0 {
                assert(s =~= seq![s[0]] + s.drop_first());
            }
        }
    }
}

/// Make producer text safe to place inside a tmux option value: every `#`
/// is doubled, so nothing in it can start a style, a format or a conditional.
pub fn escape_dynamic(text: &str) -> (r: String)
    ensures
        r@ == escape(text@),
{
    let v = chars_of(text);
    let mut out: Vec<char> = Vec::new();
    let mut i: usize = 0;
    while i < v.len()
        invariant
            i <= v.len(),
            out@ == escape(v@.take(i as int)),
        decreases v.len() - i,
    {
        let c = v[i];
        proof {
            lemma_escape_concat(v@.take(i as int), seq![c]);
            assert(v@.take(i + 1) =~= v@.take(i as int) + seq![c]);
            assert(seq![c].drop_first() =~= Seq::<char>::empty());
            assert(escape(Seq::<char>::empty()) =~= Seq::<char>::empty());
            assert(escape(seq![c]) =~= (if c == '#' {
                seq!['#', '#']
            } else {
                seq![c]
            }));
        }
        if c == '#' {
            out.push('#');
            out.push('#');
        } else {
            out.push(c);
        }
        i = i + 1;
        assert(out@ =~= escape(v@.take(i as int)));
    }
    assert(v@.take(v.len() as int) =~= v@);
    string_of(&out)
}

// ───────────────────────────── the template ─────────────────────────────

/// The count a `{token}` names, or `None` when it is not a count token.
pub open spec fn token_count(tok: Seq<char>, t: Tally) -> Option<nat> {
    if tok == "problem"@ {
        Some(t.problem as nat)
    } else if tok == "ask"@ {
        Some(t.ask as nat)
    } else if tok == "attention"@ {
        Some(t.attention as nat)
    } else if tok == "waiting"@ {
        Some(t.waiting as nat)
    } else if tok == "running"@ {
        Some(t.running as nat)
    } else if tok == "monitor"@ {
        Some(t.monitor as nat)
    } else if tok == "success"@ {
        Some(t.success as nat)
    } else if tok == "inactive"@ {
        Some(t.inactive as nat)
    } else if tok == "total"@ {
        Some(t.spec_total())
    } else {
        None
    }
}

/// One segment rendered: its text, whether it held a count token, and
/// whether any count it held was non-zero.
pub open spec fn render_seg(s: Seq<char>, t: Tally) -> (Seq<char>, bool, bool)
    decreases s.len(),
{
    match find_char(s, '{') {
        None => (s, false, false),
        Some(o) => {
            let brace = s.skip(o as int);
            match find_char(brace, '}') {
                None => (s, false, false),
                Some(c) => {
                    let tok = brace.subrange(1, c as int);
                    let rest = brace.skip((c + 1) as int);
                    proof {
                        lemma_find_char_spec(s, '{');
                        lemma_find_char_spec(brace, '}');
                    }
                    let r = render_seg(rest, t);
                    match token_count(tok, t) {
                        Some(n) => (s.take(o as int) + decimal(n) + r.0, true, n > 0 || r.2),
                        None => (s.take((o + c + 1) as int) + r.0, r.1, r.2),
                    }
                },
            }
        },
    }
}

/// Whether a rendered segment survives: it held no count token, or one of
/// its counts is non-zero.
pub open spec fn seg_kept(s: Seq<char>, t: Tally) -> bool {
    !render_seg(s, t).1 || render_seg(s, t).2
}

/// The rendered text of every surviving segment, in order.
pub open spec fn kept_segments(segs: Seq<Seq<char>>, t: Tally) -> Seq<Seq<char>>
    decreases segs.len(),
{
    if segs.len() == 0 {
        seq![]
    } else {
        let k = kept_segments(segs.drop_last(), t);
        if seg_kept(segs.last(), t) {
            k.push(render_seg(segs.last(), t).0)
        } else {
            k
        }
    }
}

/// What a template renders to for a tally.
pub open spec fn render_template(template: Seq<char>, t: Tally) -> Seq<char> {
    join(kept_segments(words(template, true), t), seq![' '])
}

/// A segment that holds no count token is shown exactly as written.
pub proof fn lemma_uncounted_segment_is_verbatim(s: Seq<char>, t: Tally)
    ensures
        !render_seg(s, t).1 ==> render_seg(s, t).0 == s,
    decreases s.len(),
{
    match find_char(s, '{') {
        None => {},
        Some(o) => {
            let brace = s.skip(o as int);
            match find_char(brace, '}') {
                None => {},
                Some(c) => {
                    lemma_find_char_spec(s, '{');
                    lemma_find_char_spec(brace, '}');
                    let rest = brace.skip((c + 1) as int);
                    lemma_uncounted_segment_is_verbatim(rest, t);
                    if token_count(brace.subrange(1, c as int), t).is_none() {
                        assert(s.take((o + c + 1) as int) + rest =~= s);
                    }
                },
            }
        },
    }
}

/// A segment whose count tokens are all zero is dropped, and one holding no
/// count token at all is always kept as written.
pub proof fn lemma_segment_survival(s: Seq<char>, t: Tally)
    ensures
        render_seg(s, t).1 && !render_seg(s, t).2 ==> !seg_kept(s, t),
        !render_seg(s, t).1 ==> seg_kept(s, t) && render_seg(s, t).0 == s,
{
    lemma_uncounted_segment_is_verbatim(s, t);
}

/// A rest with no `{` renders as itself and holds no count.
proof fn lemma_render_seg_plain(s: Seq<char>, pos: int, t: Tally)
    requires
        0 <= pos <= s.len(),
        forall|k: int| pos <= k < s.len() ==> #[trigger] s[k] != '{',
    ensures
        render_seg(s.skip(pos), t) == (s.skip(pos), false, false),
{
    crate::text::lemma_find_char_none(s, '{', pos);
}

/// A rest whose first `{` is never closed renders as itself.
proof fn lemma_render_seg_unclosed(s: Seq<char>, pos: int, open: int, t: Tally)
    requires
        0 <= pos <= open < s.len(),
        s[open] == '{',
        forall|k: int| pos <= k < open ==> #[trigger] s[k] != '{',
        forall|k: int| open <= k < s.len() ==> #[trigger] s[k] != '}',
    ensures
        render_seg(s.skip(pos), t) == (s.skip(pos), false, false),
{
    crate::text::lemma_find_char_at(s, '{', pos, open);
    crate::text::lemma_find_char_none(s, '}', open);
    assert(s.skip(pos).skip(open - pos) =~= s.skip(open));
}

/// One `{token}` step of `render_seg`.
proof fn lemma_render_seg_token(s: Seq<char>, pos: int, open: int, close: int, t: Tally)
    requires
        0 <= pos <= open < close < s.len(),
        s[open] == '{',
        s[close] == '}',
        forall|k: int| pos <= k < open ==> #[trigger] s[k] != '{',
        forall|k: int| open <= k < close ==> #[trigger] s[k] != '}',
    ensures
        render_seg(s.skip(pos), t) == ({
            let next = render_seg(s.skip(close + 1), t);
            match token_count(s.subrange(open + 1, close), t) {
                Some(n) => (s.subrange(pos, open) + decimal(n) + next.0, true, n > 0 || next.2),
                None => (s.subrange(pos, close + 1) + next.0, next.1, next.2),
            }
        }),
{
    crate::text::lemma_find_char_at(s, '{', pos, open);
    crate::text::lemma_find_char_at(s, '}', open, close);
    let rest = s.skip(pos);
    let brace = rest.skip(open - pos);
    assert(brace =~= s.skip(open));
    assert(brace.subrange(1, close - open) =~= s.subrange(open + 1, close));
    assert(brace.skip(close - open + 1) =~= s.skip(close + 1));
    assert(rest.take(open - pos) =~= s.subrange(pos, open));
    assert(rest.take(open - pos + close - open + 1) =~= s.subrange(pos, close + 1));
}

fn join_push(out: &mut Vec<char>, first: bool, part: &Vec<char>, Ghost(parts): Ghost<Seq<Seq<char>>>)
    requires
        old(out)@ == join(parts, seq![' ']),
        first == (parts.len() == 0),
    ensures
        final(out)@ == join(parts.push(part@), seq![' ']),
{
    assert(parts.push(part@).drop_last() =~= parts);
    if !first {
        out.push(' ');
    }
    let ghost before = out@;
    extend_range(out, part, 0, part.len());
    assert(part@.subrange(0, part.len() as int) =~= part@);
    if first {
        assert(out@ =~= part@);
    } else {
        assert(out@ =~= join(parts, seq![' ']) + seq![' '] + part@);
    }
}

/// The `@nerve_status_format` renderer.
pub struct SummaryRenderer {
    template: String,
}

impl SummaryRenderer {
    /// Default `@nerve_status_format`.
    pub const DEFAULT_TEMPLATE: &'static str = "#[fg=red]{problem}!#[default] #[fg=yellow]{ask}?#[default] #[fg=magenta]{monitor}~#[default] #[fg=blue]{running}>#[default]";

    /// Default `@nerve_status_offline`.
    pub const DEFAULT_OFFLINE: &'static str = "#[fg=brightblack]nerve: offline#[default]";

    /// The template this renderer fills.
    pub closed spec fn template(&self) -> Seq<char> {
        self.template@
    }

    pub fn new(template: &str) -> (r: SummaryRenderer)
        ensures
            r.template() == template@,
    {
        SummaryRenderer { template: string_of(&chars_of(template)) }
    }

    /// The status-line text for `tally`.
    pub fn render(&self, tally: &Tally) -> (r: String)
        requires
            tally.spec_total() <= usize::MAX,
        ensures
            r@ == render_template(self.template(), *tally),
    {
        let v = chars_of(self.template.as_str());
        let spans = word_spans(&v, true);
        let ghost segs = words(v@, true);
        let mut out: Vec<char> = Vec::new();
        let mut any = false;
        let mut i: usize = 0;
        assert(segs.take(0) =~= Seq::<Seq<char>>::empty());
        while i < spans.len()
            invariant
                i <= spans.len(),
                segs == spans_text(v@, spans@),
                segs.len() == spans.len(),
                forall|k: int| 0 <= k < spans.len() ==> #[trigger] spans@[k].start < spans@[k].end
                    && spans@[k].end <= v.len(),
                tally.spec_total() <= usize::MAX,
                out@ == join(kept_segments(segs.take(i as int), *tally), seq![' ']),
                any == (kept_segments(segs.take(i as int), *tally).len() > 0),
            decreases spans.len() - i,
        {
            let span = &spans[i];
            let mut seg: Vec<char> = Vec::new();
            extend_range(&mut seg, &v, span.start, span.end);
            assert(seg@ =~= segs[i as int]);
            let ghost before = kept_segments(segs.take(i as int), *tally);
            assert(segs.take(i + 1).drop_last() =~= segs.take(i as int));
            assert(segs.take(i + 1).last() == segs[i as int]);
            match Self::render_segment(&seg, tally) {
                Some(text) => {
                    join_push(&mut out, !any, &text, Ghost(before));
                    any = true;
                },
                None => {},
            }
            i = i + 1;
        }
        assert(segs.take(spans.len() as int) =~= segs);
        string_of(&out)
    }

    /// One segment, or `None` when every count it carries is zero.
    fn render_segment(seg: &Vec<char>, tally: &Tally) -> (r: Option<Vec<char>>)
        requires
            tally.spec_total() <= usize::MAX,
        ensures
            match r {
                Some(text) => seg_kept(seg@, *tally) && text@ == render_seg(seg@, *tally).0,
                None => !seg_kept(seg@, *tally),
            },
    {
        let ghost whole = render_seg(seg@, *tally);
        let mut rendered: Vec<char> = Vec::new();
        let mut counted = false;
        let mut any_non_zero = false;
        let mut pos: usize = 0;
        assert(seg@.skip(0) =~= seg@);
        loop
            invariant_except_break
                rendered@ + render_seg(seg@.skip(pos as int), *tally).0 == whole.0,
                (counted || render_seg(seg@.skip(pos as int), *tally).1) == whole.1,
                (any_non_zero || render_seg(seg@.skip(pos as int), *tally).2) == whole.2,
            invariant
                pos <= seg.len(),
                tally.spec_total() <= usize::MAX,
                whole == render_seg(seg@, *tally),
            ensures
                rendered@ == whole.0,
                counted == whole.1,
                any_non_zero == whole.2,
            decreases seg.len() - pos,
        {
            let ghost rest = seg@.skip(pos as int);
            match find_char_from(seg, pos, '{') {
                None => {
                    proof {
                        lemma_render_seg_plain(seg@, pos as int, *tally);
                    }
                    extend_range(&mut rendered, seg, pos, seg.len());
                    assert(seg@.subrange(pos as int, seg.len() as int) =~= rest);
                    break ;
                },
                Some(open) => {
                    match find_char_from(seg, open, '}') {
                        None => {
                            proof {
                                lemma_render_seg_unclosed(seg@, pos as int, open as int, *tally);
                            }
                            extend_range(&mut rendered, seg, pos, seg.len());
                            assert(seg@.subrange(pos as int, seg.len() as int) =~= rest);
                            break ;
                        },
                        Some(close) => {
                            proof {
                                lemma_render_seg_token(
                                    seg@,
                                    pos as int,
                                    open as int,
                                    close as int,
                                    *tally,
                                );
                            }
                            let ghost before = rendered@;
                            match Self::count(seg, open + 1, close, tally) {
                                Some(n) => {
                                    extend_range(&mut rendered, seg, pos, open);
                                    push_decimal(&mut rendered, n as u128);
                                    counted = true;
                                    any_non_zero = any_non_zero || n > 0;
                                },
                                None => {
                                    extend_range(&mut rendered, seg, pos, close + 1);
                                },
                            }
                            pos = close + 1;
                        },
                    }
                },
            }
        }
        if !counted || any_non_zero {
            Some(rendered)
        } else {
            None
        }
    }

    /// The count `seg[from..to]` names, or `None` when it is not a count token.
    fn count(seg: &Vec<char>, from: usize, to: usize, tally: &Tally) -> (r: Option<usize>)
        requires
            from <= to <= seg.len(),
            tally.spec_total() <= usize::MAX,
        ensures
            match r {
                Some(n) => token_count(seg@.subrange(from as int, to as int), *tally) == Some(
                    n as nat,
                ),
                None => token_count(seg@.subrange(from as int, to as int), *tally).is_none(),
            },
    {
        if range_eq(seg, from, to, "problem") {
            Some(tally.problem)
        } else if range_eq(seg, from, to, "ask") {
            Some(tally.ask)
        } else if range_eq(seg, from, to, "attention") {
            Some(tally.attention)
        } else if range_eq(seg, from, to, "waiting") {
            Some(tally.waiting)
        } else if range_eq(seg, from, to, "running") {
            Some(tally.running)
        } else if range_eq(seg, from, to, "monitor") {
            Some(tally.monitor)
        } else if range_eq(seg, from, to, "success") {
            Some(tally.success)
        } else if range_eq(seg, from, to, "inactive") {
            Some(tally.inactive)
        } else if range_eq(seg, from, to, "total") {
            Some(tally.total())
        } else {
            None
        }
    }
}

impl Default for SummaryRenderer {
    fn default() -> (r: SummaryRenderer)
        ensures
            r.template() == Self::DEFAULT_TEMPLATE@,
    {
        Self::new(Self::DEFAULT_TEMPLATE)
    }
}

} // verus!
