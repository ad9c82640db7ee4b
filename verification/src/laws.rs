//! The engine's laws: what holds of every consumed stream.
//!
//! The central results are word-boundary integrity — the drawn lines' words
//! are exactly the input's word tokens, in order, none split across lines —
//! and the width bound — every drawn line of two or more words measures
//! within the usable width. Both are proved for `spec_consume`, which every
//! executable consume is pinned to. Beside them stand the smaller laws:
//! measurement determinism, the terminator's exact cursor advance, and tab
//! expansion.

use vstd::prelude::*;

use crate::metrics::Metrics;
use crate::model::{
    candidate_text, line_text, spec_consume, spec_flush, spec_layout, spec_step,
    tab_spaces, tokenize, tokenize_from, usable_width, Event, LayoutView, OpView,
};

verus! {

/// The word tokens an event carries: one for a word event, none for a break.
pub open spec fn ev_words(ev: Event) -> Seq<Seq<char>> {
    match ev {
        Event::Word(w) => seq![w],
        Event::Break => Seq::<Seq<char>>::empty(),
    }
}

/// The word tokens of an event stream, in order.
pub open spec fn words_of(evs: Seq<Event>) -> Seq<Seq<char>>
    decreases evs.len(),
{
    if evs.len() == 0 {
        Seq::<Seq<char>>::empty()
    } else {
        ev_words(evs.first()) + words_of(evs.drop_first())
    }
}

/// The word tokens of a character stream.
pub open spec fn input_words(s: Seq<char>) -> Seq<Seq<char>> {
    words_of(tokenize(s))
}

/// A well-formed event: a word event carries a non-empty word. The
/// tokenizer only ever produces such events.
pub open spec fn ev_wf(ev: Event) -> bool {
    match ev {
        Event::Word(w) => w.len() > 0,
        Event::Break => true,
    }
}

/// All events of a stream are well-formed.
pub open spec fn evs_wf(evs: Seq<Event>) -> bool {
    forall|k: int| 0 <= k < evs.len() ==> ev_wf(#[trigger] evs[k])
}

/// The words drawn by a run of operations, in order.
pub open spec fn ops_words(ops: Seq<OpView>) -> Seq<Seq<char>>
    decreases ops.len(),
{
    if ops.len() == 0 {
        Seq::<Seq<char>>::empty()
    } else {
        ops.first().words + ops_words(ops.drop_first())
    }
}

/// Layout never touches the canvas configuration, the font, or the cursor's
/// horizontal rest position.
pub open spec fn config_eq(a: LayoutView, b: LayoutView) -> bool {
    &&& a.width == b.width
    &&& a.height == b.height
    &&& a.margin == b.margin
    &&& a.top_margin == b.top_margin
    &&& a.font_size == b.font_size
    &&& a.cursor_x == b.cursor_x
}

/// The engine's running width invariant: a pending line of two or more words
/// was measured when its last word joined, so it fits the usable width. A
/// pending line of one word may overflow — the engine never splits a word.
pub open spec fn pending_fits<M: Metrics>(m: M, v: LayoutView) -> bool {
    v.pending.len() >= 2 ==> m.width(line_text(v.pending)) <= usable_width(v)
}

/// Every pending word is non-empty.
pub open spec fn pending_wf(v: LayoutView) -> bool {
    forall|k: int| 0 <= k < v.pending.len() ==> (#[trigger] v.pending[k]).len() > 0
}

/// What holds of every operation layout draws, stated against the state `v`
/// the run began in: the text is its words joined by single spaces, the line
/// holds at least one word and no empty ones, it starts at the cursor's rest
/// position, and a line of two or more words measures within the usable
/// width.
pub open spec fn op_wf<M: Metrics>(m: M, o: OpView, v: LayoutView) -> bool {
    &&& o.text == line_text(o.words)
    &&& o.words.len() > 0
    &&& (forall|k: int| 0 <= k < o.words.len() ==> (#[trigger] o.words[k]).len() > 0)
    &&& o.x == v.cursor_x
    &&& (o.words.len() >= 2 ==> m.width(o.text) <= usable_width(v))
}

/// Joining one more word onto a non-empty pending line gives exactly the
/// candidate text the wrap decision measured.
pub proof fn lemma_candidate_is_line(pending: Seq<Seq<char>>, word: Seq<char>)
    requires
        pending.len() > 0,
    ensures
        candidate_text(pending, word) == line_text(pending.push(word)),
{
    assert(pending.push(word).drop_last() =~= pending);
    assert(pending.push(word).last() == word);
}

/// `ops_words` distributes over concatenation.
pub proof fn lemma_ops_words_concat(x: Seq<OpView>, y: Seq<OpView>)
    ensures
        ops_words(x + y) == ops_words(x) + ops_words(y),
    decreases x.len(),
{
    if x.len() == 0 {
        assert(x + y =~= y);
        assert(ops_words(x) + ops_words(y) =~= ops_words(y));
    } else {
        assert((x + y).first() == x.first());
        assert((x + y).drop_first() =~= x.drop_first() + y);
        lemma_ops_words_concat(x.drop_first(), y);
        assert(x.first().words + (ops_words(x.drop_first()) + ops_words(y)) =~= (x.first().words
            + ops_words(x.drop_first())) + ops_words(y));
    }
}

/// The tokenizer only produces well-formed events.
pub proof fn lemma_tokenize_wf(s: Seq<char>, i: int, word: Seq<char>)
    ensures
        evs_wf(tokenize_from(s, i, word)),
    decreases s.len() - i,
{
    let evs = tokenize_from(s, i, word);
    if i < 0 || i >= s.len() {
    } else {
        let c = s[i];
        if c == '\r' {
            let j = if i + 1 < s.len() && s[i + 1] == '\n' {
                i + 2
            } else {
                i + 1
            };
            lemma_tokenize_wf(s, j, Seq::<char>::empty());
        } else if c == '\n' {
            lemma_tokenize_wf(s, i + 1, Seq::<char>::empty());
        } else if c == ' ' {
            lemma_tokenize_wf(s, i + 1, Seq::<char>::empty());
        } else if c == '\t' {
            lemma_tokenize_wf(s, i + 1, word + tab_spaces());
        } else {
            lemma_tokenize_wf(s, i + 1, word.push(c));
        }
    }
}

/// A flush preserves the configuration and the invariants, draws at most one
/// operation — the old pending line, whole — and leaves nothing pending.
pub proof fn lemma_flush_properties<M: Metrics>(m: M, v: LayoutView)
    requires
        pending_fits(m, v),
        pending_wf(v),
    ensures
        ({
            let f = spec_flush(v);
            &&& config_eq(v, f)
            &&& f.pending.len() == 0
            &&& pending_fits(m, f)
            &&& pending_wf(f)
            &&& f.ops.len() >= v.ops.len()
            &&& f.ops.take(v.ops.len() as int) == v.ops
            &&& ops_words(f.ops.skip(v.ops.len() as int)) + f.pending == v.pending
            &&& (forall|j: int|
                v.ops.len() <= j < f.ops.len() ==> op_wf(m, #[trigger] f.ops[j], v))
        }),
{
    let f = spec_flush(v);
    let n0 = v.ops.len() as int;
    let none = Seq::<OpView>::empty();
    let nowords = Seq::<Seq<char>>::empty();
    assert(ops_words(none) =~= nowords);
    if v.pending.len() > 0 {
        let o = OpView {
            x: v.cursor_x,
            y: v.cursor_y,
            text: line_text(v.pending),
            words: v.pending,
        };
        assert(f.ops == v.ops.push(o));
        assert(f.ops.take(n0) =~= v.ops);
        assert(f.ops.skip(n0) =~= seq![o]);
        assert(seq![o].drop_first() =~= none);
        assert(ops_words(seq![o]) =~= o.words + ops_words(none));
        assert(o.words + nowords =~= o.words);
        assert(ops_words(f.ops.skip(n0)) + f.pending =~= v.pending);
        assert(op_wf(m, o, v));
        assert forall|j: int| n0 <= j < f.ops.len() implies op_wf(m, #[trigger] f.ops[j], v) by {
            assert(f.ops[j] == o);
        }
    } else {
        assert(f.ops == v.ops);
        assert(f.ops.take(n0) =~= v.ops);
        assert(f.ops.skip(n0) =~= none);
        assert(ops_words(f.ops.skip(n0)) + f.pending =~= v.pending);
    }
}

/// One event preserves the configuration and the invariants, and conserves
/// words: the words of whatever it draws plus the words left pending are the
/// old pending words followed by the event's own.
pub proof fn lemma_step_properties<M: Metrics>(m: M, v: LayoutView, ev: Event)
    requires
        ev_wf(ev),
        pending_fits(m, v),
        pending_wf(v),
    ensures
        ({
            let st = spec_step(m, v, ev);
            &&& config_eq(v, st)
            &&& pending_fits(m, st)
            &&& pending_wf(st)
            &&& st.ops.len() >= v.ops.len()
            &&& st.ops.take(v.ops.len() as int) == v.ops
            &&& ops_words(st.ops.skip(v.ops.len() as int)) + st.pending == v.pending + ev_words(
                ev,
            )
            &&& (forall|j: int|
                v.ops.len() <= j < st.ops.len() ==> op_wf(m, #[trigger] st.ops[j], v))
        }),
{
    let st = spec_step(m, v, ev);
    let n0 = v.ops.len() as int;
    let none = Seq::<OpView>::empty();
    let nowords = Seq::<Seq<char>>::empty();
    assert(ops_words(none) =~= nowords);
    match ev {
        Event::Break => {
            lemma_flush_properties(m, v);
            let f = spec_flush(v);
            assert(ops_words(f.ops.skip(n0)) + f.pending + nowords =~= ops_words(
                f.ops.skip(n0),
            ) + f.pending);
            assert(v.pending + nowords =~= v.pending);
        },
        Event::Word(w) => {
            let cand = m.width(candidate_text(v.pending, w));
            if v.pending.len() > 0 && cand > usable_width(v) {
                lemma_flush_properties(m, v);
                let f = spec_flush(v);
                assert(st.ops == f.ops);
                assert(ops_words(f.ops.skip(n0)) + f.pending =~= ops_words(f.ops.skip(n0)));
                assert(ops_words(st.ops.skip(n0)) + st.pending =~= v.pending + seq![w]);
                assert forall|k: int| 0 <= k < st.pending.len() implies (
                #[trigger] st.pending[k]).len() > 0 by {
                    assert(st.pending[k] == w);
                }
            } else {
                assert(st.ops == v.ops);
                assert(st.ops.take(n0) =~= v.ops);
                assert(st.ops.skip(n0) =~= none);
                assert(st.pending == v.pending.push(w));
                assert(nowords + st.pending =~= st.pending);
                assert(v.pending.push(w) =~= v.pending + seq![w]);
                if v.pending.len() > 0 {
                    lemma_candidate_is_line(v.pending, w);
                    assert(st.pending.len() >= 2 ==> m.width(line_text(st.pending))
                        <= usable_width(st));
                } else {
                    assert(st.pending.len() == 1);
                }
                assert forall|k: int| 0 <= k < st.pending.len() implies (
                #[trigger] st.pending[k]).len() > 0 by {
                    if k < v.pending.len() {
                        assert(st.pending[k] == v.pending[k]);
                    } else {
                        assert(st.pending[k] == w);
                    }
                }
            }
        },
    }
}

/// A whole event stream preserves the configuration and the invariants,
/// only ever appends draw operations, conserves words — drawn plus pending
/// equals old pending plus the stream's words, in order — and every drawn
/// operation is a whole-word line satisfying `op_wf`.
pub proof fn lemma_layout_properties<M: Metrics>(m: M, v: LayoutView, evs: Seq<Event>)
    requires
        evs_wf(evs),
        pending_fits(m, v),
        pending_wf(v),
    ensures
        ({
            let v2 = spec_layout(m, v, evs);
            &&& config_eq(v, v2)
            &&& pending_fits(m, v2)
            &&& pending_wf(v2)
            &&& v2.ops.len() >= v.ops.len()
            &&& v2.ops.take(v.ops.len() as int) == v.ops
            &&& ops_words(v2.ops.skip(v.ops.len() as int)) + v2.pending == v.pending + words_of(
                evs,
            )
            &&& (forall|j: int|
                v.ops.len() <= j < v2.ops.len() ==> op_wf(m, #[trigger] v2.ops[j], v))
        }),
    decreases evs.len(),
{
    let v2 = spec_layout(m, v, evs);
    let n0 = v.ops.len() as int;
    if evs.len() == 0 {
        assert(v2 == v);
        assert(v2.ops.take(n0) =~= v.ops);
        assert(v2.ops.skip(n0) =~= Seq::<OpView>::empty());
        assert(ops_words(Seq::<OpView>::empty()) =~= Seq::<Seq<char>>::empty());
        assert(ops_words(v2.ops.skip(n0)) + v2.pending =~= v.pending + words_of(evs));
    } else {
        let e0 = evs[0];
        assert(ev_wf(e0));
        let st = spec_step(m, v, e0);
        let n1 = st.ops.len() as int;
        lemma_step_properties(m, v, e0);
        assert(evs_wf(evs.skip(1))) by {
            assert forall|k: int| 0 <= k < evs.skip(1).len() implies ev_wf(
                #[trigger] evs.skip(1)[k],
            ) by {
                assert(evs.skip(1)[k] == evs[k + 1]);
            }
        }
        lemma_layout_properties(m, st, evs.skip(1));
        assert(v2 == spec_layout(m, st, evs.skip(1)));

        // The run's operations split at the step boundary.
        assert(v2.ops.take(n0) =~= v.ops);
        assert(v2.ops.skip(n0) =~= st.ops.skip(n0) + v2.ops.skip(n1));
        lemma_ops_words_concat(st.ops.skip(n0), v2.ops.skip(n1));

        // Words conserved across the step and the rest of the run.
        assert(ops_words(v2.ops.skip(n0)) + v2.pending =~= ops_words(st.ops.skip(n0)) + (
        ops_words(v2.ops.skip(n1)) + v2.pending));
        assert(ops_words(st.ops.skip(n0)) + (st.pending + words_of(evs.skip(1))) =~= (ops_words(
            st.ops.skip(n0),
        ) + st.pending) + words_of(evs.skip(1)));
        assert((v.pending + ev_words(e0)) + words_of(evs.skip(1)) =~= v.pending + (ev_words(e0)
            + words_of(evs.skip(1))));
        assert(evs.first() == e0);
        assert(evs.drop_first() =~= evs.skip(1));
        assert(words_of(evs) == ev_words(e0) + words_of(evs.skip(1)));

        // Every drawn operation is sound against the starting state.
        assert(usable_width(st) == usable_width(v));
        assert forall|j: int| n0 <= j < v2.ops.len() implies op_wf(m, #[trigger] v2.ops[j], v) by {
            if j < n1 {
                assert(v2.ops[j] == v2.ops.take(n1)[j]);
                assert(v2.ops[j] == st.ops[j]);
                assert(op_wf(m, st.ops[j], v));
            } else {
                assert(op_wf(m, v2.ops[j], st));
            }
        }
    }
}

/// What holds of a whole consumed stream, started with no pending line: the
/// configuration is untouched, earlier operations are untouched, nothing is
/// left pending, the words drawn by the new operations are exactly the
/// input's word tokens in order, and every new operation satisfies `op_wf`.
pub proof fn lemma_consume_properties<M: Metrics>(m: M, v: LayoutView, s: Seq<char>)
    requires
        v.pending.len() == 0,
    ensures
        ({
            let v2 = spec_consume(m, v, s);
            &&& config_eq(v, v2)
            &&& v2.pending.len() == 0
            &&& v2.ops.len() >= v.ops.len()
            &&& v2.ops.take(v.ops.len() as int) == v.ops
            &&& ops_words(v2.ops.skip(v.ops.len() as int)) == input_words(s)
            &&& (forall|j: int|
                v.ops.len() <= j < v2.ops.len() ==> op_wf(m, #[trigger] v2.ops[j], v))
        }),
{
    let evs = tokenize(s);
    let n0 = v.ops.len() as int;
    let v2 = spec_consume(m, v, s);
    let vl = spec_layout(m, v, evs);
    let nowords = Seq::<Seq<char>>::empty();
    lemma_tokenize_wf(s, 0, Seq::<char>::empty());
    lemma_layout_properties(m, v, evs);
    assert(v.pending + words_of(evs) =~= words_of(evs));
    if vl.pending.len() > 0 {
        let n1 = vl.ops.len() as int;
        lemma_flush_properties(m, vl);
        assert(v2 == spec_flush(vl));
        assert(ops_words(v2.ops.skip(n1)) + v2.pending =~= ops_words(v2.ops.skip(n1)));
        assert(ops_words(v2.ops.skip(n1)) == vl.pending);
        assert(v2.ops.take(n0) =~= v.ops);
        assert(v2.ops.skip(n0) =~= vl.ops.skip(n0) + v2.ops.skip(n1));
        lemma_ops_words_concat(vl.ops.skip(n0), v2.ops.skip(n1));
        assert(ops_words(v2.ops.skip(n0)) =~= ops_words(vl.ops.skip(n0)) + vl.pending);
        assert(ops_words(v2.ops.skip(n0)) == input_words(s));
        assert(usable_width(vl) == usable_width(v));
        assert forall|j: int| n0 <= j < v2.ops.len() implies op_wf(m, #[trigger] v2.ops[j], v) by {
            if j < n1 {
                assert(v2.ops[j] == v2.ops.take(n1)[j]);
                assert(v2.ops[j] == vl.ops[j]);
                assert(op_wf(m, vl.ops[j], v));
            } else {
                assert(op_wf(m, v2.ops[j], vl));
            }
        }
    } else {
        assert(v2 == vl);
        assert(ops_words(v2.ops.skip(n0)) + v2.pending =~= ops_words(v2.ops.skip(n0)));
        assert(ops_words(v2.ops.skip(n0)) == input_words(s));
    }
}

/// Law: measurement is idempotent. `Metrics::measure` pins its result to the
/// provider's width function, so any two measurements of the same text under
/// the same provider return the same width.
pub proof fn lemma_measure_idempotent<M: Metrics>(m: M, text: Seq<char>, w1: u32, w2: u32)
    requires
        w1 as int == m.width(text),
        w2 as int == m.width(text),
    ensures
        w1 == w2,
{
}

/// Law: word-boundary integrity. Consuming a stream with nothing pending
/// only appends draw operations, and the words those operations draw are
/// exactly the input's word tokens, in order — every drawn line is whole
/// consecutive words joined by single spaces, so no word is ever split
/// across two lines, lost, or reordered. (A word wider than the usable width
/// is still one whole token, drawn unsplit on its own line.)
pub proof fn lemma_word_boundary_integrity<M: Metrics>(m: M, v: LayoutView, s: Seq<char>)
    requires
        v.pending.len() == 0,
    ensures
        ({
            let v2 = spec_consume(m, v, s);
            &&& v2.ops.len() >= v.ops.len()
            &&& v2.ops.take(v.ops.len() as int) == v.ops
            &&& ops_words(v2.ops.skip(v.ops.len() as int)) == input_words(s)
            &&& (forall|j: int|
                v.ops.len() <= j < v2.ops.len() ==> (#[trigger] v2.ops[j]).text == line_text(
                    v2.ops[j].words,
                ))
        }),
{
    lemma_consume_properties(m, v, s);
}

/// Law: width bound. Every line a consumed stream draws from two or more
/// words measures within the usable width. A single-word line measures
/// exactly as its word, so it either fits on its own account or is the
/// accepted silent overflow: a word wider than the usable width, drawn
/// whole.
pub proof fn lemma_width_bound<M: Metrics>(m: M, v: LayoutView, s: Seq<char>)
    requires
        v.pending.len() == 0,
    ensures
        ({
            let v2 = spec_consume(m, v, s);
            &&& (forall|j: int|
                v.ops.len() <= j < v2.ops.len() && (#[trigger] v2.ops[j]).words.len() >= 2
                    ==> m.width(v2.ops[j].text) <= usable_width(v))
            &&& (forall|j: int|
                v.ops.len() <= j < v2.ops.len() && (#[trigger] v2.ops[j]).words.len() == 1
                    ==> m.width(v2.ops[j].text) == m.width(v2.ops[j].words[0]))
        }),
{
    lemma_consume_properties(m, v, s);
    let v2 = spec_consume(m, v, s);
    assert forall|j: int|
        v.ops.len() <= j < v2.ops.len() && (#[trigger] v2.ops[j]).words.len()
            == 1 implies m.width(v2.ops[j].text) == m.width(v2.ops[j].words[0]) by {
        assert(op_wf(m, v2.ops[j], v));
        assert(line_text(v2.ops[j].words) == v2.ops[j].words[0]);
    }
}

/// Law: terminator flush. An explicit line terminator advances the cursor by
/// exactly one line height, whether or not a line was pending — a blank line
/// stays blank but still takes its height. Stated below the cursor's `u64`
/// saturation ceiling, which no real canvas nears.
pub proof fn lemma_terminator_advance(v: LayoutView)
    requires
        v.cursor_y + v.font_size <= u64::MAX as int,
    ensures
        spec_flush(v).cursor_y == v.cursor_y + v.font_size,
        v.pending.len() == 0 ==> spec_flush(v).ops == v.ops,
{
}

/// Law: tab expansion. A tab character adds exactly four space characters to
/// the word in progress, before anything further is tokenized or measured.
pub proof fn lemma_tab_expansion(s: Seq<char>, i: int, word: Seq<char>)
    requires
        0 <= i < s.len(),
        s[i] == '\t',
    ensures
        tokenize_from(s, i, word) == tokenize_from(s, i + 1, word + tab_spaces()),
        (word + tab_spaces()).len() == word.len() + 4,
        forall|k: int|
            word.len() <= k < word.len() + 4 ==> (word + tab_spaces())[k] == ' ',
{
    assert forall|k: int|
        word.len() <= k < word.len() + 4 implies (word + tab_spaces())[k] == ' ' by {
        assert((word + tab_spaces())[k] == tab_spaces()[k - word.len()]);
    }
}

} // verus!
