//! Glyph metrics: the measurement contract the layout engine relies on.
//!
//! A metrics provider turns a piece of text into its rendered pixel width.
//! The engine requires nothing of a provider beyond determinism: for a fixed
//! provider (font and size) and a fixed text, `measure` always returns the
//! same width. That is captured by tying the executable `measure` to the
//! provider's own mathematical width function.

use vstd::prelude::*;

verus! {

/// A deterministic source of rendered text widths, standing for a font at a
/// fixed size. `width` is the provider's mathematical model of itself;
/// `measure` must return exactly that value, which makes repeated
/// measurements of the same text agree.
pub trait Metrics: Sized {
    /// The rendered pixel width of `text` under this provider. A provider
    /// meant for verified callers overrides this together with `measure`;
    /// one that keeps the default is opaque to them, since its contract then
    /// pins `measure` to the constant zero.
    open spec fn width(&self, text: Seq<char>) -> int {
        0
    }

    /// Measure `text`. The result is pinned to `width`, so measurement is a
    /// pure function of the provider and the text.
    fn measure(&self, text: &Vec<char>) -> (w: u32)
        ensures
            w as int == self.width(text@),
    ;
}

/// Clamp a width to the range a `u32` can carry.
pub open spec fn clamp_u32(x: int) -> int {
    if x > u32::MAX as int {
        u32::MAX as int
    } else {
        x
    }
}

/// Width of `text` when every space is `space_width` pixels wide and every
/// other character `char_width` pixels, accumulated with saturation at
/// `u32::MAX`.
pub open spec fn table_width(char_width: int, space_width: int, text: Seq<char>) -> int
    recommends
        0 <= char_width,
        0 <= space_width,
    decreases text.len(),
{
    if text.len() == 0 {
        0
    } else {
        let last = if text.last() == ' ' {
            space_width
        } else {
            char_width
        };
        clamp_u32(table_width(char_width, space_width, text.drop_last()) + last)
    }
}

/// A provider with one width for spaces and one for every other character:
/// the simplest deterministic font model, enough to drive and to test the
/// engine's wrap decisions without a rendering backend.
pub struct CharTableMetrics {
    pub char_width: u32,
    pub space_width: u32,
}

impl Metrics for CharTableMetrics {
    open spec fn width(&self, text: Seq<char>) -> int {
        table_width(self.char_width as int, self.space_width as int, text)
    }

    fn measure(&self, text: &Vec<char>) -> (w: u32) {
        let mut acc: u32 = 0;
        let mut i: usize = 0;
        while i < text.len()
            invariant
                i <= text.len(),
                acc as int == table_width(
                    self.char_width as int,
                    self.space_width as int,
                    text@.take(i as int),
                ),
            decreases text.len() - i,
        {
            let c = text[i];
            let step = if c == ' ' {
                self.space_width
            } else {
                self.char_width
            };
            proof {
                assert(text@.take(i + 1 as int).drop_last() =~= text@.take(i as int));
                assert(text@.take(i + 1 as int).last() == text@[i as int]);
            }
            acc = acc.saturating_add(step);
            i = i + 1;
        }
        proof {
            assert(text@.take(text@.len() as int) =~= text@);
        }
        acc
    }
}

} // verus!
