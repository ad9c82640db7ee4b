use mrsa_core::engine::{TextImage, DEFAULT_FONT_SIZE, DEFAULT_MARGIN};
use mrsa_core::error::LayoutError;
use mrsa_core::metrics::{CharTableMetrics, Metrics};

fn chars(s: &str) -> Vec<char> {
    s.chars().collect()
}

#[test]
fn it_works() {
    let result = 2 + 2;
    assert_eq!(result, 4);
}

// Canvas 200px wide, margin 10px: usable width 180px. Words measuring 30px
// each with 10px per joining space: "A B C" totals 110px, so all three words
// fit on one line and the end-of-stream flush draws it with one call.
#[test]
fn three_words_fit_on_one_line() {
    let m = CharTableMetrics { char_width: 30, space_width: 10 };
    let mut img = TextImage::new(200, 200).margin(10).top_margin(10);
    assert_eq!(img.usable_width(), 180);
    img.consume(&m, &chars("A B C"));
    let ops = img.ops();
    assert_eq!(ops.len(), 1);
    assert_eq!(ops[0].text, chars("A B C"));
    assert_eq!(ops[0].x, 10);
    assert_eq!(ops[0].y, 10);
    // The flush advanced the cursor exactly once.
    assert_eq!(img.cursor(), (10, 10 + 18));
}

// A single word measuring 250px on a 180px usable width: overflow is not an
// error. The word is drawn whole, alone, on its own line, and nothing else
// changes.
#[test]
fn oversized_word_drawn_whole() {
    let m = CharTableMetrics { char_width: 50, space_width: 10 };
    let mut img = TextImage::new(200, 200).margin(10).top_margin(10);
    img.consume(&m, &chars("WWWWW"));
    assert_eq!(m.measure(&chars("WWWWW")), 250);
    let ops = img.ops();
    assert_eq!(ops.len(), 1);
    assert_eq!(ops[0].text, chars("WWWWW"));
    assert_eq!(ops[0].x, 10);
    assert_eq!(ops[0].y, 10);
    assert_eq!(img.cursor(), (10, 28));
}

// "foo\r\nbar": the CRLF pair is one terminator. Two lines drawn, and the
// cursor moves down exactly twice.
#[test]
fn crlf_is_one_terminator() {
    let m = CharTableMetrics { char_width: 10, space_width: 5 };
    let mut img = TextImage::new(400, 200).margin(10).top_margin(10);
    img.consume(&m, &chars("foo\r\nbar"));
    let ops = img.ops();
    assert_eq!(ops.len(), 2);
    assert_eq!(ops[0].text, chars("foo"));
    assert_eq!(ops[0].y, 10);
    assert_eq!(ops[1].text, chars("bar"));
    assert_eq!(ops[1].y, 28);
    assert_eq!(img.cursor(), (10, 46));
}

// "foo\rbar": a lone carriage return terminates the line just like CRLF.
#[test]
fn lone_cr_is_a_terminator() {
    let m = CharTableMetrics { char_width: 10, space_width: 5 };
    let mut with_crlf = TextImage::new(400, 200).margin(10).top_margin(10);
    with_crlf.consume(&m, &chars("foo\r\nbar"));
    let mut with_cr = TextImage::new(400, 200).margin(10).top_margin(10);
    with_cr.consume(&m, &chars("foo\rbar"));
    assert_eq!(with_cr.ops().len(), with_crlf.ops().len());
    for (a, b) in with_cr.ops().iter().zip(with_crlf.ops().iter()) {
        assert_eq!(a.text, b.text);
        assert_eq!(a.x, b.x);
        assert_eq!(a.y, b.y);
    }
    assert_eq!(with_cr.cursor(), with_crlf.cursor());
}

// A lone line feed terminates the line the same way too.
#[test]
fn lone_lf_is_a_terminator() {
    let m = CharTableMetrics { char_width: 10, space_width: 5 };
    let mut img = TextImage::new(400, 200).margin(10).top_margin(10);
    img.consume(&m, &chars("foo\nbar"));
    assert_eq!(img.ops().len(), 2);
    assert_eq!(img.ops()[0].text, chars("foo"));
    assert_eq!(img.ops()[1].text, chars("bar"));
    assert_eq!(img.cursor(), (10, 46));
}

// An empty stream draws nothing and leaves the cursor at its starting
// position.
#[test]
fn empty_stream_is_inert() {
    let m = CharTableMetrics { char_width: 10, space_width: 5 };
    let mut img = TextImage::new(200, 200).margin(10).top_margin(30);
    img.consume(&m, &chars(""));
    assert_eq!(img.ops().len(), 0);
    assert_eq!(img.cursor(), (10, 30));
    assert!(!img.is_dirty());
}

// A tab adds exactly four spaces to the word in progress: it is not a word
// boundary of its own, so "x\ty" is one word of six characters.
#[test]
fn tab_expands_to_four_spaces() {
    let m = CharTableMetrics { char_width: 10, space_width: 5 };
    let mut img = TextImage::new(400, 200).margin(10).top_margin(10);
    img.consume(&m, &chars("x\ty"));
    let ops = img.ops();
    assert_eq!(ops.len(), 1);
    assert_eq!(ops[0].text, chars("x    y"));
}

// Words wrap at the usable width and are never split: "AA BB CC" with 60px
// words and 10px spaces overflows 180px at the third word, which opens the
// second line whole.
#[test]
fn wrap_keeps_words_whole() {
    let m = CharTableMetrics { char_width: 30, space_width: 10 };
    let mut img = TextImage::new(200, 200).margin(10).top_margin(10);
    img.consume(&m, &chars("AA BB CC"));
    assert_eq!(m.measure(&chars("AA BB CC")), 200);
    assert_eq!(m.measure(&chars("AA BB")), 130);
    let ops = img.ops();
    assert_eq!(ops.len(), 2);
    assert_eq!(ops[0].text, chars("AA BB"));
    assert_eq!(ops[0].y, 10);
    assert_eq!(ops[1].text, chars("CC"));
    assert_eq!(ops[1].y, 28);
}

// Terminators advance the cursor even with nothing pending: blank lines are
// preserved, with no draw call for them.
#[test]
fn blank_lines_advance_without_drawing() {
    let m = CharTableMetrics { char_width: 10, space_width: 5 };
    let mut img = TextImage::new(400, 200).margin(10).top_margin(10);
    img.consume(&m, &chars("\n\n"));
    assert_eq!(img.ops().len(), 0);
    assert_eq!(img.cursor(), (10, 10 + 18 + 18));

    let mut img2 = TextImage::new(400, 200).margin(10).top_margin(10);
    img2.consume(&m, &chars("a\n\nb"));
    assert_eq!(img2.ops().len(), 2);
    assert_eq!(img2.ops()[0].y, 10);
    assert_eq!(img2.ops()[1].y, 10 + 18 + 18);
}

// Consecutive spaces collapse: they bound empty words, which are skipped.
#[test]
fn repeated_spaces_collapse() {
    let m = CharTableMetrics { char_width: 10, space_width: 5 };
    let mut img = TextImage::new(400, 200).margin(10).top_margin(10);
    img.consume(&m, &chars("a   b"));
    let ops = img.ops();
    assert_eq!(ops.len(), 1);
    assert_eq!(ops[0].text, chars("a b"));
}

// Measurement is deterministic: the same provider and text give the same
// width, call after call.
#[test]
fn measure_is_idempotent() {
    let m = CharTableMetrics { char_width: 7, space_width: 3 };
    let text = chars("some words here");
    let first = m.measure(&text);
    let second = m.measure(&text);
    assert_eq!(first, second);
    assert_eq!(first, 13 * 7 + 2 * 3);
}

// State accumulates across consume calls: a second stream lays out below the
// first.
#[test]
fn consume_accumulates() {
    let m = CharTableMetrics { char_width: 10, space_width: 5 };
    let mut img = TextImage::new(400, 200).margin(10).top_margin(10);
    img.consume(&m, &chars("one"));
    img.consume(&m, &chars("two"));
    let ops = img.ops();
    assert_eq!(ops.len(), 2);
    assert_eq!(ops[0].text, chars("one"));
    assert_eq!(ops[0].y, 10);
    assert_eq!(ops[1].text, chars("two"));
    assert_eq!(ops[1].y, 28);
}

// The dirty flag follows canvas mutation: set by a draw, cleared by export,
// set again by the next draw.
#[test]
fn dirty_flag_tracks_draws() {
    let m = CharTableMetrics { char_width: 10, space_width: 5 };
    let mut img = TextImage::new(400, 200);
    assert!(!img.is_dirty());
    img.consume(&m, &chars("hello"));
    assert!(img.is_dirty());
    img.mark_exported();
    assert!(!img.is_dirty());
    img.consume(&m, &chars("again"));
    assert!(img.is_dirty());
}

// Construction defaults and builder configuration: each configuration call
// resets the cursor to its starting position.
#[test]
fn builders_reset_cursor() {
    let img = TextImage::new(640, 480);
    assert_eq!(img.dimensions(), (640, 480));
    assert_eq!(img.cursor(), (DEFAULT_MARGIN, DEFAULT_MARGIN as u64));
    assert_eq!(img.line_height(), DEFAULT_FONT_SIZE);

    let img = img.margin(5);
    assert_eq!(img.cursor(), (5, DEFAULT_MARGIN as u64));
    let img = img.top_margin(7);
    assert_eq!(img.cursor(), (5, 7));
    let img = img.font_size(24);
    assert_eq!(img.line_height(), 24);
    assert_eq!(img.cursor(), (5, 7));
}

// A margin wider than half the canvas leaves no usable width: every word
// overflows silently and each lands on a line of its own.
#[test]
fn zero_usable_width_gives_one_word_lines() {
    let m = CharTableMetrics { char_width: 10, space_width: 5 };
    let mut img = TextImage::new(100, 100).margin(60).top_margin(10);
    assert_eq!(img.usable_width(), 0);
    img.consume(&m, &chars("ab cd"));
    let ops = img.ops();
    assert_eq!(ops.len(), 2);
    assert_eq!(ops[0].text, chars("ab"));
    assert_eq!(ops[1].text, chars("cd"));
}

// The failure kinds a host distinguishes are distinct values.
#[test]
fn error_kinds_are_distinct() {
    let kinds = [
        LayoutError::FontLoad,
        LayoutError::SourceLoad,
        LayoutError::InvalidEncoding,
        LayoutError::Measurement,
    ];
    for (i, a) in kinds.iter().enumerate() {
        for (j, b) in kinds.iter().enumerate() {
            assert_eq!(i == j, a == b);
        }
    }
}

// Valid UTF-8 bytes lay out exactly like the characters they decode to,
// multi-byte encodings included.
#[test]
fn consume_bytes_matches_consume() {
    let m = CharTableMetrics { char_width: 10, space_width: 5 };
    let text = "h\u{e9}llo w\u{f6}rld \u{1f600}";
    let mut from_bytes = TextImage::new(400, 200).margin(10).top_margin(10);
    let r = from_bytes.consume_bytes(&m, &text.as_bytes().to_vec());
    assert_eq!(r, Ok(()));
    let mut from_chars = TextImage::new(400, 200).margin(10).top_margin(10);
    from_chars.consume(&m, &chars(text));
    assert_eq!(from_bytes.ops().len(), from_chars.ops().len());
    for (a, b) in from_bytes.ops().iter().zip(from_chars.ops().iter()) {
        assert_eq!(a.text, b.text);
        assert_eq!(a.x, b.x);
        assert_eq!(a.y, b.y);
    }
}

// Invalid UTF-8 fails with InvalidEncoding and leaves the engine untouched:
// a stray continuation byte, a truncated sequence, an overlong encoding, and
// a surrogate are all rejected.
#[test]
fn invalid_utf8_is_rejected() {
    let m = CharTableMetrics { char_width: 10, space_width: 5 };
    let bad: [&[u8]; 5] = [
        &[0xff],
        &[0x80],
        &[0xc3],
        &[0xc0, 0x80],
        &[0xed, 0xa0, 0x80],
    ];
    for bytes in bad.iter() {
        let mut img = TextImage::new(400, 200).margin(10).top_margin(10);
        let r = img.consume_bytes(&m, &bytes.to_vec());
        assert_eq!(r, Err(LayoutError::InvalidEncoding));
        assert_eq!(img.ops().len(), 0);
        assert_eq!(img.cursor(), (10, 10));
        assert!(!img.is_dirty());
    }
}

// The decoder alone: ASCII plus each multi-byte width round-trips to the
// characters Rust itself decodes.
#[test]
fn decode_text_matches_std() {
    let text = "a\u{e9}\u{20ac}\u{1f600}";
    let decoded = mrsa_core::decode::decode_text(&text.as_bytes().to_vec());
    assert_eq!(decoded, Ok(text.chars().collect()));
}
