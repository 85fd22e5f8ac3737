use pathfinder_typesetter::codepoints::{sorted_chars_with_space, text_codepoint_ranges};
use pathfinder_typesetter::text::{is_whitespace, word_spans};
use pathfinder_typesetter::units::SUBUNITS;
use pathfinder_typesetter::{
    CodepointRange, CodepointRanges, FontError, FontMetrics, LineStyle, ShapedGlyph, TextFont,
    TypesetError, Typesetter,
};
use std::cell::RefCell;

const PX: i64 = SUBUNITS;

/// Every glyph advances 600 units; a character's glyph is its code.
struct MonoFont {
    metrics: FontMetrics,
    advance: u16,
    fail_on: Option<char>,
    requested: RefCell<Vec<(u32, u32)>>,
}

impl TextFont for MonoFont {
    type Mapping = Vec<(u32, u32)>;

    fn metrics(&self) -> FontMetrics {
        self.metrics
    }

    fn glyph_mapping_for_codepoint_ranges(&self, ranges: &Vec<CodepointRange>) -> Result<Vec<(u32, u32)>, FontError> {
        let mapping: Vec<(u32, u32)> = ranges.iter().map(|r| (r.start, r.end)).collect();
        *self.requested.borrow_mut() = mapping.clone();
        if let Some(c) = self.fail_on {
            if mapping.iter().any(|&(a, b)| a <= c as u32 && c as u32 <= b) {
                return Err(FontError::UnmappedCodepoint);
            }
        }
        Ok(mapping)
    }

    fn space_advance(&self, mapping: &Vec<(u32, u32)>) -> Result<u16, FontError> {
        assert!(mapping.iter().any(|&(a, b)| a <= 32 && 32 <= b));
        Ok(self.advance)
    }

    fn shape_word(&self, mapping: &Vec<(u32, u32)>, word: &str) -> Result<Vec<ShapedGlyph>, FontError> {
        let mut glyphs = Vec::new();
        for c in word.chars() {
            assert!(mapping.iter().any(|&(a, b)| a <= c as u32 && c as u32 <= b));
            glyphs.push(ShapedGlyph { glyph_id: c as u16, advance: self.advance });
        }
        Ok(glyphs)
    }
}

fn mono(metrics: FontMetrics, advance: u16, fail_on: Option<char>) -> MonoFont {
    MonoFont { metrics, advance, fail_on, requested: RefCell::new(Vec::new()) }
}

fn metrics() -> FontMetrics {
    FontMetrics { units_per_em: 1000, ascender: 800, descender: -200, line_gap: 200 }
}

fn font() -> MonoFont {
    mono(metrics(), 600, None)
}

fn xs(t: &Typesetter) -> Vec<i64> {
    t.glyph_positions().iter().map(|p| p.x).collect()
}

fn ys(t: &Typesetter) -> Vec<i64> {
    t.glyph_positions().iter().map(|p| p.y).collect()
}

#[test]
fn example_words_share_a_line() {
    let mut t = Typesetter::new(100 * PX, &metrics(), 10 * 64);
    assert_eq!(t.cursor(), (0, 8 * PX));
    assert_eq!(t.add_text(&font(), 10 * 64, "AB CD"), Ok(()));
    assert_eq!(xs(&t), vec![0, 6 * PX, 18 * PX, 24 * PX]);
    assert_eq!(ys(&t), vec![8 * PX; 4]);
    let ids: Vec<u16> = t.glyph_positions().iter().map(|p| p.glyph_id).collect();
    assert_eq!(ids, vec![65, 66, 67, 68]);
    assert_eq!(t.cursor(), (36 * PX, 8 * PX));
}

#[test]
fn example_narrow_page_wraps() {
    let mut t = Typesetter::new(20 * PX, &metrics(), 10 * 64);
    assert_eq!(t.add_text(&font(), 10 * 64, "AB CD"), Ok(()));
    assert_eq!(xs(&t), vec![0, 6 * PX, 0, 6 * PX]);
    assert_eq!(ys(&t), vec![8 * PX, 8 * PX, 20 * PX, 20 * PX]);
    assert_eq!(t.cursor(), (18 * PX, 20 * PX));
}

#[test]
fn line_style_from_metrics() {
    let style = LineStyle::new(&metrics(), 10 * 64, 600);
    assert_eq!(style.space_advance, 6 * PX);
    assert_eq!(style.line_spacing, 12 * PX);
}

#[test]
fn wide_word_is_not_split() {
    let mut t = Typesetter::new(10 * PX, &metrics(), 10 * 64);
    assert_eq!(t.add_text(&font(), 10 * 64, "ABCD"), Ok(()));
    // The pen starts at x = 0, so the word wraps once and then overflows.
    assert_eq!(xs(&t), vec![0, 6 * PX, 12 * PX, 18 * PX]);
    assert_eq!(ys(&t), vec![20 * PX; 4]);
    assert_eq!(t.cursor(), (30 * PX, 20 * PX));
}

#[test]
fn glyphs_stay_on_page_when_words_fit() {
    let mut t = Typesetter::new(40 * PX, &metrics(), 10 * 64);
    assert_eq!(t.add_text(&font(), 10 * 64, "AB CDE F GHIJ K LMN OP Q"), Ok(()));
    for p in t.glyph_positions() {
        assert!(p.x >= 0 && p.x <= 40 * PX);
    }
    let mut last_y = 0;
    for p in t.glyph_positions() {
        assert!(p.y >= last_y);
        assert!((p.y - 8 * PX) % (12 * PX) == 0);
        last_y = p.y;
    }
    assert!(last_y > 8 * PX);
}

#[test]
fn whitespace_runs_collapse() {
    let mut a = Typesetter::new(100 * PX, &metrics(), 10 * 64);
    let mut b = Typesetter::new(100 * PX, &metrics(), 10 * 64);
    assert_eq!(a.add_text(&font(), 10 * 64, "AB CD"), Ok(()));
    assert_eq!(b.add_text(&font(), 10 * 64, "  AB \t\n CD\u{3000}"), Ok(()));
    assert_eq!(xs(&a), xs(&b));
    assert_eq!(a.cursor(), b.cursor());
}

#[test]
fn empty_text_places_nothing() {
    let mut t = Typesetter::new(100 * PX, &metrics(), 10 * 64);
    assert_eq!(t.add_text(&font(), 10 * 64, " \n "), Ok(()));
    assert!(t.glyph_positions().is_empty());
    assert_eq!(t.cursor(), (0, 8 * PX));
}

#[test]
fn successive_calls_share_the_pen() {
    let mut t = Typesetter::new(100 * PX, &metrics(), 10 * 64);
    assert_eq!(t.add_text(&font(), 10 * 64, "AB"), Ok(()));
    assert_eq!(t.add_text(&font(), 20 * 64, "C"), Ok(()));
    assert_eq!(xs(&t), vec![0, 6 * PX, 18 * PX]);
    assert_eq!(t.cursor(), (42 * PX, 8 * PX));
}

#[test]
fn font_error_places_nothing() {
    let mut t = Typesetter::new(100 * PX, &metrics(), 10 * 64);
    let f = mono(metrics(), 600, Some('D'));
    assert_eq!(
        t.add_text(&f, 10 * 64, "AB CD"),
        Err(TypesetError::FontError(FontError::UnmappedCodepoint))
    );
    assert!(t.glyph_positions().is_empty());
    assert_eq!(t.cursor(), (0, 8 * PX));
}

#[test]
fn zero_units_per_em_is_refused() {
    let mut t = Typesetter::new(100 * PX, &metrics(), 10 * 64);
    let mut m = metrics();
    m.units_per_em = 0;
    let f = mono(m, 600, None);
    assert_eq!(t.add_text(&f, 10 * 64, "AB"), Err(TypesetError::ZeroUnitsPerEm));
    assert!(t.glyph_positions().is_empty());
}

#[test]
fn coordinate_overflow_stops_the_pass() {
    let mut t = Typesetter::new(100 * PX, &metrics(), 10 * 64);
    let m = FontMetrics { units_per_em: 1, ascender: 1, descender: 0, line_gap: 0 };
    let f = mono(m, 65535, None);
    let long: String = std::iter::repeat('A').take(300).collect();
    let text = format!("AB {}", long);
    assert_eq!(t.add_text(&f, 65535, &text), Err(TypesetError::CoordinateOverflow));
    // The first word stays placed.
    assert_eq!(t.glyph_positions().len(), 2);
}

#[test]
fn add_word_places_exact_advances() {
    let mut t = Typesetter::new(100 * PX, &metrics(), 10 * 64);
    let style = LineStyle::new(&metrics(), 10 * 64, 250);
    let word = vec![
        ShapedGlyph { glyph_id: 1, advance: 100 },
        ShapedGlyph { glyph_id: 2, advance: 333 },
        ShapedGlyph { glyph_id: 3, advance: 7 },
    ];
    assert_eq!(t.add_word(&style, &word), Ok(()));
    // 100 * 640 / 1000 = 64; 333 * 640 / 1000 = 213 (rounded down).
    assert_eq!(xs(&t), vec![0, 64, 277]);
    // 7 * 640 / 1000 = 4; space 250 * 640 / 1000 = 160.
    assert_eq!(t.cursor(), (281 + 160, 8 * PX));
}

#[test]
fn add_words_matches_word_by_word() {
    let style = LineStyle::new(&metrics(), 10 * 64, 600);
    let a = vec![ShapedGlyph { glyph_id: 1, advance: 600 }; 3];
    let b = vec![ShapedGlyph { glyph_id: 2, advance: 600 }; 2];
    let mut one = Typesetter::new(25 * PX, &metrics(), 10 * 64);
    let mut two = Typesetter::new(25 * PX, &metrics(), 10 * 64);
    assert_eq!(one.add_words(&style, &vec![a.clone(), b.clone()]), Ok(()));
    assert_eq!(two.add_word(&style, &a), Ok(()));
    assert_eq!(two.add_word(&style, &b), Ok(()));
    assert_eq!(xs(&one), xs(&two));
    assert_eq!(ys(&one), ys(&two));
    assert_eq!(ys(&one), vec![8 * PX, 8 * PX, 8 * PX, 20 * PX, 20 * PX]);
}

#[test]
fn position_pairs_coordinates() {
    let mut t = Typesetter::new(100 * PX, &metrics(), 10 * 64);
    assert_eq!(t.add_text(&font(), 10 * 64, "AB"), Ok(()));
    assert_eq!(t.glyph_positions()[1].position(), (6 * PX, 8 * PX));
    assert_eq!(t.page_width(), 100 * PX);
}

#[test]
fn whitespace_matches_std() {
    for code in 0u32..0x3100 {
        if let Some(c) = char::from_u32(code) {
            assert_eq!(is_whitespace(c), c.is_whitespace(), "{:?}", c);
        }
    }
}

#[test]
fn word_spans_skip_whitespace_runs() {
    assert_eq!(word_spans("  ab  c\td "), vec![(2, 4), (6, 7), (8, 9)]);
    assert_eq!(word_spans(""), vec![]);
    assert_eq!(word_spans("   "), vec![]);
    assert_eq!(word_spans("héllo wörld"), vec![(0, 5), (6, 11)]);
}

#[test]
fn mapping_is_requested_for_text_and_space() {
    let mut t = Typesetter::new(100 * PX, &metrics(), 10 * 64);
    let f = font();
    assert_eq!(t.add_text(&f, 10 * 64, "BAD CAB"), Ok(()));
    assert_eq!(*f.requested.borrow(), vec![(32, 32), (65, 68)]);
}

#[test]
fn sorted_chars_dedup_and_add_space() {
    assert_eq!(sorted_chars_with_space("cab ba"), vec![' ', 'a', 'b', 'c']);
    assert_eq!(sorted_chars_with_space(""), vec![' ']);
}

#[test]
fn ranges_merge_consecutive_codes() {
    let r = CodepointRanges::from_sorted_chars(&vec!['a', 'b', 'b', 'c', 'e', 'x', 'y']);
    let got: Vec<(u32, u32)> = r.ranges.iter().map(|r| (r.start, r.end)).collect();
    assert_eq!(got, vec![(97, 99), (101, 101), (120, 121)]);
    assert!(CodepointRanges::from_sorted_chars(&vec![]).ranges.is_empty());
    let t = text_codepoint_ranges("!hello");
    let got: Vec<(u32, u32)> = t.ranges.iter().map(|r| (r.start, r.end)).collect();
    assert_eq!(got, vec![(32, 33), (101, 101), (104, 104), (108, 108), (111, 111)]);
}
