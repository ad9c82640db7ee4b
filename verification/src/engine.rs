//! The streaming text layout engine.
//!
//! `TextImage` owns a fixed-size canvas configuration, a cursor, and the line
//! being accumulated, and turns a character stream into word-wrapped draw
//! operations. The canvas itself is abstract: every mutation of it is one
//! `DrawOp` in the order it was issued, and a host replays the operations
//! onto its raster backend. Wrap decisions are driven by a [`Metrics`]
//! provider, with no lookahead beyond the word in progress.
//!
//! Configuration is builder-style and belongs before streaming: each
//! configuration call resets the cursor to its starting position.

use vstd::prelude::*;

use vstd::utf8::{decode_utf8, valid_utf8};

use crate::decode::decode_text;
use crate::error::LayoutError;
use crate::metrics::Metrics;
use crate::model::{
    candidate_text, line_height, line_text, spec_append, spec_consume, spec_end, spec_flush,
    spec_layout, tokenize_from, usable_width, Event, LayoutView, OpView, SENTINEL,
};
use crate::model::{lemma_layout_concat, lemma_layout_flush_word, lemma_layout_one, tab_spaces};

verus! {

/// The margin, in pixels, used when none is configured.
pub const DEFAULT_MARGIN: u32 = 20;

/// The font size, in pixels, used when none is configured. The line height
/// equals the font size.
pub const DEFAULT_FONT_SIZE: u32 = 18;

/// One draw call onto the canvas: write `text` with its left baseline origin
/// at pixel position `(x, y)`.
pub struct DrawOp {
    pub x: u32,
    pub y: u64,
    pub text: Vec<char>,
    /// The whole words the drawn line was joined from, kept for reasoning:
    /// `text` is exactly these words joined by single spaces.
    pub words: Ghost<Seq<Seq<char>>>,
}

impl View for DrawOp {
    type V = OpView;

    open spec fn view(&self) -> OpView {
        OpView { x: self.x as int, y: self.y as int, text: self.text@, words: self.words@ }
    }
}

/// The draw operations as the model sees them.
pub open spec fn ops_view(ops: Seq<DrawOp>) -> Seq<OpView> {
    ops.map_values(|op: DrawOp| op@)
}

/// The pending words as the model sees them.
pub open spec fn words_view(words: Seq<Vec<char>>) -> Seq<Seq<char>> {
    words.map_values(|w: Vec<char>| w@)
}

/// The text colour drawn lines are rendered in, as straight RGBA bytes. The
/// engine carries it for its host; it plays no part in layout.
#[derive(Clone, Copy, Debug, PartialEq, Eq, Structural)]
pub struct Rgba {
    pub r: u8,
    pub g: u8,
    pub b: u8,
    pub a: u8,
}

/// The streaming layout engine over a fixed-size canvas.
pub struct TextImage {
    width: u32,
    height: u32,
    margin: u32,
    top_margin: u32,
    font_size: u32,
    color: Rgba,
    cursor_x: u32,
    cursor_y: u64,
    pending: Vec<Vec<char>>,
    ops: Vec<DrawOp>,
    dirty: bool,
}

impl View for TextImage {
    type V = LayoutView;

    closed spec fn view(&self) -> LayoutView {
        LayoutView {
            width: self.width as int,
            height: self.height as int,
            margin: self.margin as int,
            top_margin: self.top_margin as int,
            font_size: self.font_size as int,
            cursor_x: self.cursor_x as int,
            cursor_y: self.cursor_y as int,
            pending: words_view(self.pending@),
            ops: ops_view(self.ops@),
            dirty: self.dirty,
        }
    }
}

/// Copy the characters of `src` onto the end of `dst`.
fn push_chars(dst: &mut Vec<char>, src: &Vec<char>)
    ensures
        final(dst)@ == old(dst)@ + src@,
{
    let ghost base = dst@;
    let mut j: usize = 0;
    while j < src.len()
        invariant
            j <= src.len(),
            dst@ == base + src@.take(j as int),
        decreases src.len() - j,
    {
        dst.push(src[j]);
        proof {
            assert(base + src@.take(j + 1 as int) =~= (base + src@.take(j as int)).push(
                src@[j as int],
            ));
        }
        j = j + 1;
    }
    proof {
        assert(base + src@.take(src@.len() as int) =~= base + src@);
    }
}

/// A fresh copy of a word.
fn clone_chars(src: &Vec<char>) -> (r: Vec<char>)
    ensures
        r@ == src@,
{
    let mut r: Vec<char> = Vec::new();
    push_chars(&mut r, src);
    proof {
        assert(Seq::<char>::empty() + src@ =~= src@);
    }
    r
}

impl TextImage {
    /// A new engine over a `width` by `height` pixel canvas, with the default
    /// margin, top margin, font size, and an opaque black text colour. The
    /// cursor starts at the top-left inset, nothing is pending and nothing
    /// has been drawn.
    pub fn new(width: u32, height: u32) -> (r: Self)
        ensures
            r@ == (LayoutView {
                width: width as int,
                height: height as int,
                margin: DEFAULT_MARGIN as int,
                top_margin: DEFAULT_MARGIN as int,
                font_size: DEFAULT_FONT_SIZE as int,
                cursor_x: DEFAULT_MARGIN as int,
                cursor_y: DEFAULT_MARGIN as int,
                pending: Seq::<Seq<char>>::empty(),
                ops: Seq::<OpView>::empty(),
                dirty: false,
            }),
            r.spec_color() == (Rgba { r: 0, g: 0, b: 0, a: 255 }),
    {
        let r = TextImage {
            width,
            height,
            margin: DEFAULT_MARGIN,
            top_margin: DEFAULT_MARGIN,
            font_size: DEFAULT_FONT_SIZE,
            color: Rgba { r: 0, g: 0, b: 0, a: 255 },
            cursor_x: DEFAULT_MARGIN,
            cursor_y: DEFAULT_MARGIN as u64,
            pending: Vec::new(),
            ops: Vec::new(),
            dirty: false,
        };
        proof {
            assert(words_view(r.pending@) =~= Seq::<Seq<char>>::empty());
            assert(ops_view(r.ops@) =~= Seq::<OpView>::empty());
        }
        r
    }

    /// Set the left/right (and default top) inset, in pixels, and reset the
    /// cursor to its starting position. Configuration belongs before
    /// streaming. A margin wider than half the canvas leaves no usable
    /// width: every word then overflows, which the engine accepts silently.
    pub fn margin(self, px: u32) -> (r: Self)
        ensures
            r@ == (LayoutView {
                margin: px as int,
                cursor_x: px as int,
                cursor_y: self@.top_margin,
                ..self@
            }),
            r.spec_color() == self.spec_color(),
    {
        TextImage { margin: px, cursor_x: px, cursor_y: self.top_margin as u64, ..self }
    }

    /// Set a distinct top inset, in pixels: it overrides where the cursor
    /// starts vertically. The cursor is reset to its starting position.
    pub fn top_margin(self, px: u32) -> (r: Self)
        ensures
            r@ == (LayoutView {
                top_margin: px as int,
                cursor_x: self@.margin,
                cursor_y: px as int,
                ..self@
            }),
            r.spec_color() == self.spec_color(),
    {
        TextImage { top_margin: px, cursor_x: self.margin, cursor_y: px as u64, ..self }
    }

    /// Set the font size, in pixels. The line height equals the font size.
    /// The cursor is reset to its starting position.
    pub fn font_size(self, px: u32) -> (r: Self)
        ensures
            r@ == (LayoutView {
                font_size: px as int,
                cursor_x: self@.margin,
                cursor_y: self@.top_margin,
                ..self@
            }),
            r.spec_color() == self.spec_color(),
    {
        TextImage { font_size: px, cursor_x: self.margin, cursor_y: self.top_margin as u64, ..self }
    }

    /// Set the text colour. Colour plays no part in layout, so the cursor is
    /// left alone.
    pub fn color(self, c: Rgba) -> (r: Self)
        ensures
            r@ == self@,
            r.spec_color() == c,
    {
        TextImage { color: c, ..self }
    }

    /// The configured text colour, as the contracts speak of it.
    pub closed spec fn spec_color(&self) -> Rgba {
        self.color
    }

    /// The configured text colour.
    pub fn color_of(&self) -> (r: Rgba)
        ensures
            r == self.spec_color(),
    {
        self.color
    }

    /// The canvas dimensions, width by height, in pixels.
    pub fn dimensions(&self) -> (r: (u32, u32))
        ensures
            r.0 as int == self@.width,
            r.1 as int == self@.height,
    {
        (self.width, self.height)
    }

    /// The width a line may use: the canvas width minus both margins, and
    /// zero when the margins exceed the canvas.
    pub fn usable_width(&self) -> (r: u32)
        ensures
            r as int == usable_width(self@),
    {
        let m2: u64 = 2 * (self.margin as u64);
        let w: u64 = self.width as u64;
        if w >= m2 {
            (w - m2) as u32
        } else {
            0
        }
    }

    /// The height of one line: the configured font size.
    pub fn line_height(&self) -> (r: u32)
        ensures
            r as int == line_height(self@),
    {
        self.font_size
    }

    /// The cursor position, `(x, y)` in pixels.
    pub fn cursor(&self) -> (r: (u32, u64))
        ensures
            r.0 as int == self@.cursor_x,
            r.1 as int == self@.cursor_y,
    {
        (self.cursor_x, self.cursor_y)
    }

    /// The draw operations issued so far, in order.
    pub fn ops(&self) -> (r: &Vec<DrawOp>)
        ensures
            ops_view(r@) == self@.ops,
    {
        &self.ops
    }

    /// Whether the canvas changed since it was last exported.
    pub fn is_dirty(&self) -> (r: bool)
        ensures
            r == self@.dirty,
    {
        self.dirty
    }

    /// Note that the canvas was exported: a host calls this after
    /// materializing the draw operations, and re-exports only when
    /// `is_dirty` reports a new draw.
    pub fn mark_exported(&mut self)
        ensures
            final(self)@ == (LayoutView { dirty: false, ..old(self)@ }),
    {
        self.dirty = false;
    }

    /// The pending line as text: its words joined by single spaces.
    fn join_line(&self) -> (r: Vec<char>)
        ensures
            r@ == line_text(self@.pending),
    {
        let ghost ps = self@.pending;
        let mut r: Vec<char> = Vec::new();
        let mut i: usize = 0;
        while i < self.pending.len()
            invariant
                i <= self.pending.len(),
                ps == words_view(self.pending@),
                r@ == line_text(ps.take(i as int)),
            decreases self.pending.len() - i,
        {
            if i > 0 {
                r.push(' ');
            }
            push_chars(&mut r, &self.pending[i]);
            proof {
                assert(ps.take(i + 1 as int).drop_last() =~= ps.take(i as int));
                assert(ps.take(i + 1 as int).last() == ps[i as int]);
                if i == 0 {
                    assert(line_text(ps.take(1)) == ps[0]);
                    assert(Seq::<char>::empty() + ps[0] =~= ps[0]);
                } else {
                    assert(line_text(ps.take(i as int)) + seq![' '] + ps[i as int] =~= (line_text(
                        ps.take(i as int),
                    ).push(' ')) + ps[i as int]);
                }
            }
            i = i + 1;
        }
        proof {
            assert(ps.take(ps.len() as int) =~= ps);
        }
        r
    }

    /// The text whose width decides the wrap for `word`: the pending line,
    /// the joining space, and the word — with the sentinel character in
    /// place of an empty pending line.
    fn candidate_line(&self, word: &Vec<char>) -> (r: Vec<char>)
        ensures
            r@ == candidate_text(self@.pending, word@),
    {
        let mut r: Vec<char>;
        if self.pending.len() == 0 {
            r = Vec::new();
            r.push(SENTINEL);
            r.push(' ');
            proof {
                assert(r@ =~= seq![SENTINEL, ' ']);
            }
        } else {
            r = self.join_line();
            r.push(' ');
            proof {
                assert(r@ =~= line_text(self@.pending) + seq![' ']);
            }
        }
        push_chars(&mut r, word);
        proof {
            if self@.pending.len() == 0 {
                assert(seq![SENTINEL, ' '] + word@ =~= candidate_text(self@.pending, word@));
            } else {
                assert((line_text(self@.pending) + seq![' ']) + word@ =~= candidate_text(
                    self@.pending,
                    word@,
                ));
            }
        }
        r
    }

    /// Flush the pending line: draw it at the cursor if it is non-empty,
    /// then advance the cursor one line and clear the line. The cursor
    /// advances even when nothing was drawn, so explicit terminators
    /// preserve blank lines. This is the engine's only canvas mutation.
    pub fn line_break(&mut self)
        ensures
            final(self)@ == spec_flush(old(self)@),
    {
        let ghost pre = self@;
        if self.pending.len() > 0 {
            let text = self.join_line();
            let op = DrawOp {
                x: self.cursor_x,
                y: self.cursor_y,
                text,
                words: Ghost(pre.pending),
            };
            self.ops.push(op);
            self.dirty = true;
            proof {
                assert(ops_view(self.ops@) =~= pre.ops.push(
                    OpView {
                        x: pre.cursor_x,
                        y: pre.cursor_y,
                        text: line_text(pre.pending),
                        words: pre.pending,
                    },
                ));
            }
        }
        self.pending = Vec::new();
        self.cursor_y = self.cursor_y.saturating_add(self.font_size as u64);
        proof {
            assert(words_view(self.pending@) =~= Seq::<Seq<char>>::empty());
        }
    }

    /// The wrap decision for a non-empty word. The candidate text — pending
    /// line, joining space, word — is measured; if a non-empty pending line
    /// would grow wider than the usable width, it is flushed first and the
    /// word opens the next line. The word is never split: one wider than the
    /// usable width all by itself still becomes the pending line, whole, and
    /// the overflow is accepted silently.
    pub fn append_word<M: Metrics>(&mut self, provider: &M, word: &Vec<char>)
        requires
            word@.len() > 0,
        ensures
            final(self)@ == spec_append(*provider, old(self)@, word@),
    {
        let ghost pre = self@;
        let cand = self.candidate_line(word);
        let cand_width = provider.measure(&cand);
        let limit = self.usable_width();
        if self.pending.len() > 0 && cand_width > limit {
            self.line_break();
        }
        let copy = clone_chars(word);
        self.pending.push(copy);
        proof {
            let target = spec_append(*provider, pre, word@);
            assert(words_view(self.pending@) =~= target.pending);
        }
    }

    /// Consume a whole character stream. Characters are classified in stream
    /// order: `\r\n`, lone `\r` and lone `\n` terminate the line; a tab
    /// appends four spaces to the word in progress; a space completes it;
    /// anything else extends it. Completed words go through the wrap
    /// decision, terminators flush, and a line still pending at end of
    /// stream is flushed too, so nothing the stream produced is left
    /// undrawn. State accumulates across calls: feeding two streams lays the
    /// second out below the first.
    pub fn consume<M: Metrics>(&mut self, provider: &M, text: &Vec<char>)
        ensures
            final(self)@ == spec_consume(*provider, old(self)@, text@),
    {
        let ghost v0 = self@;
        let ghost s = text@;
        let mut word: Vec<char> = Vec::new();
        let mut i: usize = 0;
        while i < text.len()
            invariant
                i <= text.len(),
                s == text@,
                spec_end(spec_layout(*provider, self@, tokenize_from(s, i as int, word@)))
                    == spec_consume(*provider, v0, s),
            decreases text.len() - i,
        {
            let ghost pre = self@;
            let ghost w0 = word@;
            let ghost evs = tokenize_from(s, i as int, w0);
            let c = text[i];
            if c == '\r' || c == '\n' {
                let next: usize = if c == '\r' && i + 1 < text.len() && text[i + 1] == '\n' {
                    i + 2
                } else {
                    i + 1
                };
                proof {
                    let rest = tokenize_from(s, next as int, Seq::<char>::empty());
                    assert(evs == crate::model::flush_word(w0) + seq![Event::Break] + rest);
                    lemma_layout_concat(
                        *provider,
                        pre,
                        crate::model::flush_word(w0) + seq![Event::Break],
                        rest,
                    );
                    lemma_layout_concat(
                        *provider,
                        pre,
                        crate::model::flush_word(w0),
                        seq![Event::Break],
                    );
                    lemma_layout_flush_word(*provider, pre, w0);
                    lemma_layout_one(
                        *provider,
                        spec_layout(*provider, pre, crate::model::flush_word(w0)),
                        Event::Break,
                    );
                    assert(crate::model::flush_word(w0) + seq![Event::Break] + rest =~= (
                    crate::model::flush_word(w0) + seq![Event::Break]) + rest);
                }
                if word.len() > 0 {
                    self.append_word(provider, &word);
                    word = Vec::new();
                }
                self.line_break();
                i = next;
                proof {
                    assert(word@ =~= Seq::<char>::empty());
                }
            } else if c == ' ' {
                proof {
                    let rest = tokenize_from(s, i + 1 as int, Seq::<char>::empty());
                    assert(evs == crate::model::flush_word(w0) + rest);
                    lemma_layout_concat(*provider, pre, crate::model::flush_word(w0), rest);
                    lemma_layout_flush_word(*provider, pre, w0);
                }
                if word.len() > 0 {
                    self.append_word(provider, &word);
                    word = Vec::new();
                }
                i = i + 1;
                proof {
                    assert(word@ =~= Seq::<char>::empty());
                }
            } else if c == '\t' {
                proof {
                    assert(evs == tokenize_from(s, i + 1 as int, w0 + tab_spaces()));
                }
                word.push(' ');
                word.push(' ');
                word.push(' ');
                word.push(' ');
                proof {
                    assert(word@ =~= w0 + tab_spaces());
                }
                i = i + 1;
            } else {
                proof {
                    assert(evs == tokenize_from(s, i + 1 as int, w0.push(c)));
                }
                word.push(c);
                i = i + 1;
            }
        }
        proof {
            let w0 = word@;
            assert(tokenize_from(s, i as int, w0) == crate::model::flush_word(w0));
            lemma_layout_flush_word(*provider, self@, w0);
        }
        if word.len() > 0 {
            self.append_word(provider, &word);
        }
        if self.pending.len() > 0 {
            self.line_break();
        }
    }

    /// Consume a raw byte stream as UTF-8 text. On valid UTF-8 the decoded
    /// characters are consumed as by `consume`; on invalid UTF-8 the call
    /// fails with `InvalidEncoding` and the engine is left untouched — the
    /// failure is fatal to this call, and nothing of the stream is drawn.
    pub fn consume_bytes<M: Metrics>(&mut self, provider: &M, bytes: &Vec<u8>) -> (r: Result<
        (),
        LayoutError,
    >)
        ensures
            match r {
                Ok(done) => valid_utf8(bytes@) && final(self)@ == spec_consume(
                    *provider,
                    old(self)@,
                    decode_utf8(bytes@),
                ),
                Err(e) => {
                    &&& !valid_utf8(bytes@)
                    &&& e == LayoutError::InvalidEncoding
                    &&& final(self)@ == old(self)@
                },
            },
    {
        match decode_text(bytes) {
            Ok(text) => {
                self.consume(provider, &text);
                Ok(())
            },
            Err(e) => Err(e),
        }
    }
}

} // verus!
