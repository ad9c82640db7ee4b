//! The mathematical model of the layout engine.
//!
//! The engine's behaviour is stated in three layers:
//! - `tokenize` turns a character stream into word and line-break events,
//!   handling carriage return/line feed pairs and tab expansion;
//! - `spec_layout` folds those events over a `LayoutView`, making the wrap
//!   decision for each word against the metrics provider;
//! - `spec_consume` runs both and then flushes whatever line is still
//!   pending, so that a consumed stream leaves nothing undrawn.
//!
//! Every executable engine operation is pinned to one of these functions.

use vstd::prelude::*;

use crate::metrics::Metrics;

verus! {

/// One event of the tokenized stream: a completed word, or an explicit line
/// terminator.
pub ghost enum Event {
    /// A completed word token: a maximal run of characters delimited by
    /// spaces or line terminators. Tabs contribute four literal spaces to the
    /// word they land in, so a word may itself contain spaces.
    Word(Seq<char>),
    /// An explicit line terminator: `\r\n`, a lone `\r`, or a lone `\n`.
    Break,
}

/// One draw operation: the engine wrote `text` at pixel position `(x, y)`.
/// `words` records the whole words the line was joined from.
pub ghost struct OpView {
    pub x: int,
    pub y: int,
    pub text: Seq<char>,
    pub words: Seq<Seq<char>>,
}

/// The abstract state of a layout engine: its fixed canvas and font
/// configuration, the cursor, the words of the line not yet drawn, the draw
/// operations emitted so far, and the dirty flag of the exported texture.
pub ghost struct LayoutView {
    pub width: int,
    pub height: int,
    pub margin: int,
    pub top_margin: int,
    pub font_size: int,
    pub cursor_x: int,
    pub cursor_y: int,
    pub pending: Seq<Seq<char>>,
    pub ops: Seq<OpView>,
    pub dirty: bool,
}

/// The four spaces a tab contributes to the word in progress.
pub open spec fn tab_spaces() -> Seq<char> {
    seq![' ', ' ', ' ', ' ']
}

/// The sentinel character measured in place of an empty pending line, so
/// that the joining space ahead of the first word is accounted for even by
/// measurement backends that trim whitespace from string edges.
pub const SENTINEL: char = '.';

/// The word in progress as an event, if it is non-empty.
pub open spec fn flush_word(word: Seq<char>) -> Seq<Event> {
    if word.len() > 0 {
        seq![Event::Word(word)]
    } else {
        Seq::<Event>::empty()
    }
}

/// Tokenization of the stream `s` from position `i` onward, with `word` the
/// word in progress. `\r` consumes an immediately following `\n` as one
/// terminator; a lone `\r` or `\n` is a terminator by itself; a space
/// completes the word in progress; a tab appends four spaces to it; every
/// other character extends it. A word still in progress at end of stream is
/// emitted as a final word event.
pub open spec fn tokenize_from(s: Seq<char>, i: int, word: Seq<char>) -> Seq<Event>
    recommends
        0 <= i <= s.len(),
    decreases s.len() - i,
{
    if i < 0 || i >= s.len() {
        flush_word(word)
    } else {
        let c = s[i];
        if c == '\r' {
            let j = if i + 1 < s.len() && s[i + 1] == '\n' {
                i + 2
            } else {
                i + 1
            };
            flush_word(word) + seq![Event::Break] + tokenize_from(s, j, Seq::<char>::empty())
        } else if c == '\n' {
            flush_word(word) + seq![Event::Break] + tokenize_from(s, i + 1, Seq::<char>::empty())
        } else if c == ' ' {
            flush_word(word) + tokenize_from(s, i + 1, Seq::<char>::empty())
        } else if c == '\t' {
            tokenize_from(s, i + 1, word + tab_spaces())
        } else {
            tokenize_from(s, i + 1, word.push(c))
        }
    }
}

/// The event stream of the whole input.
pub open spec fn tokenize(s: Seq<char>) -> Seq<Event> {
    tokenize_from(s, 0, Seq::<char>::empty())
}

/// The text of a line: its words joined by single spaces.
pub open spec fn line_text(words: Seq<Seq<char>>) -> Seq<char>
    decreases words.len(),
{
    if words.len() == 0 {
        Seq::<char>::empty()
    } else if words.len() == 1 {
        words[0]
    } else {
        line_text(words.drop_last()) + seq![' '] + words.last()
    }
}

/// The text whose measured width decides the wrap: the pending line, the
/// joining space, and the candidate word. An empty pending line is stood in
/// for by the sentinel character.
pub open spec fn candidate_text(pending: Seq<Seq<char>>, word: Seq<char>) -> Seq<char> {
    if pending.len() == 0 {
        seq![SENTINEL, ' '] + word
    } else {
        line_text(pending) + seq![' '] + word
    }
}

/// The width a line may use: the canvas width minus the left and right
/// margins, and zero when the margins exceed the canvas (every word then
/// overflows, which the engine accepts silently).
pub open spec fn usable_width(v: LayoutView) -> int {
    if v.width >= 2 * v.margin {
        v.width - 2 * v.margin
    } else {
        0
    }
}

/// The height of one line: the configured font size.
pub open spec fn line_height(v: LayoutView) -> int {
    v.font_size
}

/// A cursor advance by `amount`, saturating at the top of `u64`. Content
/// below the canvas is out of sight but still laid out, so the cursor has no
/// ceiling of its own.
pub open spec fn advanced(y: int, amount: int) -> int {
    if y + amount > u64::MAX as int {
        u64::MAX as int
    } else {
        y + amount
    }
}

/// A flush: draw the pending line at the cursor if it is non-empty, then
/// advance the cursor one line and clear the pending line. The cursor
/// advances even when nothing was drawn, which preserves blank lines under
/// explicit terminators.
pub open spec fn spec_flush(v: LayoutView) -> LayoutView {
    let drawn = if v.pending.len() > 0 {
        LayoutView {
            ops: v.ops.push(
                OpView {
                    x: v.cursor_x,
                    y: v.cursor_y,
                    text: line_text(v.pending),
                    words: v.pending,
                },
            ),
            dirty: true,
            ..v
        }
    } else {
        v
    };
    LayoutView {
        pending: Seq::<Seq<char>>::empty(),
        cursor_y: advanced(v.cursor_y, line_height(v)),
        ..drawn
    }
}

/// The wrap decision for a non-empty word. If the pending line is non-empty
/// and the candidate text measures wider than the usable width, the pending
/// line is flushed and the word opens the next line; otherwise the word
/// joins the pending line. A word that alone measures wider than the usable
/// width still becomes the pending line whole: the engine never splits a
/// word, and accepts the overflow silently.
pub open spec fn spec_append<M: Metrics>(m: M, v: LayoutView, word: Seq<char>) -> LayoutView
    recommends
        word.len() > 0,
{
    let cand = m.width(candidate_text(v.pending, word));
    if v.pending.len() > 0 && cand > usable_width(v) {
        let f = spec_flush(v);
        LayoutView { pending: seq![word], ..f }
    } else {
        LayoutView { pending: v.pending.push(word), ..v }
    }
}

/// One event applied to the state: a non-empty word goes through the wrap
/// decision, a terminator flushes.
pub open spec fn spec_step<M: Metrics>(m: M, v: LayoutView, ev: Event) -> LayoutView {
    match ev {
        Event::Word(w) => if w.len() > 0 {
            spec_append(m, v, w)
        } else {
            v
        },
        Event::Break => spec_flush(v),
    }
}

/// The events folded over the state in stream order.
pub open spec fn spec_layout<M: Metrics>(m: M, v: LayoutView, evs: Seq<Event>) -> LayoutView
    decreases evs.len(),
{
    if evs.len() == 0 {
        v
    } else {
        spec_layout(m, spec_step(m, v, evs[0]), evs.skip(1))
    }
}

/// The end-of-stream policy: a line still pending when the stream ends is
/// flushed, so a consumed stream leaves nothing undrawn. Nothing happens on
/// an empty pending line — an empty stream moves neither cursor nor canvas.
pub open spec fn spec_end(v: LayoutView) -> LayoutView {
    if v.pending.len() > 0 {
        spec_flush(v)
    } else {
        v
    }
}

/// Consuming a whole character stream: tokenize it, lay the events out, and
/// flush the final line.
pub open spec fn spec_consume<M: Metrics>(m: M, v: LayoutView, s: Seq<char>) -> LayoutView {
    spec_end(spec_layout(m, v, tokenize(s)))
}

/// Laying out concatenated event streams is laying out one after the other.
pub proof fn lemma_layout_concat<M: Metrics>(m: M, v: LayoutView, a: Seq<Event>, b: Seq<Event>)
    ensures
        spec_layout(m, v, a + b) == spec_layout(m, spec_layout(m, v, a), b),
    decreases a.len(),
{
    if a.len() == 0 {
        assert(a + b =~= b);
    } else {
        assert((a + b)[0] == a[0]);
        assert((a + b).skip(1) =~= a.skip(1) + b);
        lemma_layout_concat(m, spec_step(m, v, a[0]), a.skip(1), b);
    }
}

/// A single event lays out as one step.
pub proof fn lemma_layout_one<M: Metrics>(m: M, v: LayoutView, ev: Event)
    ensures
        spec_layout(m, v, seq![ev]) == spec_step(m, v, ev),
{
    let evs = seq![ev];
    assert(evs.len() == 1);
    assert(evs[0] == ev);
    assert(evs.skip(1) =~= Seq::<Event>::empty());
    assert(spec_layout(m, v, evs) == spec_layout(m, spec_step(m, v, ev), evs.skip(1)));
    assert(spec_layout(m, spec_step(m, v, ev), evs.skip(1)) == spec_step(m, v, ev));
}

/// Laying out the events of a word in progress: the wrap decision if it is
/// non-empty, nothing otherwise.
pub proof fn lemma_layout_flush_word<M: Metrics>(m: M, v: LayoutView, word: Seq<char>)
    ensures
        spec_layout(m, v, flush_word(word)) == if word.len() > 0 {
            spec_append(m, v, word)
        } else {
            v
        },
{
    if word.len() > 0 {
        lemma_layout_one(m, v, Event::Word(word));
    }
}

} // verus!
