//! Greedy word-wrap layout.
use vstd::prelude::*;
use crate::codepoints::{text_codepoint_ranges, CodepointRange};
use crate::cull::{visible_glyphs, visible_quads, PositionedGlyph, Rect};
use crate::error::{FontError, GlyphStoreCreationError, TypesetError};
use crate::glyph_store::{GlyphStore, OutlineBuilder};
use crate::text::word_spans;
use crate::units::{scale_units, scale_units_exec, COORD_LIMIT};

verus! {

/// Font-wide metrics, in font design units.
#[derive(Clone, Copy, Debug)]
pub struct FontMetrics {
    pub units_per_em: u16,
    pub ascender: i16,
    pub descender: i16,
    pub line_gap: i16,
}

/// One glyph of a shaped word: its identifier and its advance in design units.
#[derive(Clone, Copy, Debug)]
pub struct ShapedGlyph {
    pub glyph_id: u16,
    pub advance: u16,
}

/// A glyph's pen position on the page, in 1/64 px, with its font identifier.
#[derive(Clone, Copy, Debug)]
pub struct GlyphPosition {
    pub x: i64,
    pub y: i64,
    pub glyph_id: u16,
}

impl GlyphPosition {
    /// The pen position as `(x, y)`.
    pub fn position(&self) -> (r: (i64, i64))
        ensures
            r == (self.x, self.y),
    {
        (self.x, self.y)
    }
}

/// The per-call quantities of a layout pass: the size, and the space advance
/// and line spacing at that size in 1/64 px.
#[derive(Clone, Copy, Debug)]
pub struct LineStyle {
    pub point_size: u16,
    pub units_per_em: u16,
    pub space_advance: i64,
    pub line_spacing: i64,
}

impl LineStyle {
    pub open spec fn wf(self) -> bool {
        &&& self.units_per_em > 0
        &&& 0 <= self.space_advance <= 0x1_0000_0000
        &&& -0x1_0000_0000_0000 <= self.line_spacing <= 0x1_0000_0000_0000
    }

    /// A glyph's advance in 1/64 px.
    pub open spec fn glyph_advance(self, g: ShapedGlyph) -> int {
        scale_units(g.advance as int, self.point_size as int, self.units_per_em as int)
    }

    /// The summed advances of a word in 1/64 px.
    pub open spec fn word_advance(self, word: Seq<ShapedGlyph>) -> int
        decreases word.len(),
    {
        if word.len() == 0 {
            0
        } else {
            self.word_advance(word.drop_last()) + self.glyph_advance(word.last())
        }
    }

    /// Sizes a layout pass: `point_size` is in 1/64 pt and the space advance
    /// is in design units.
    pub fn new(metrics: &FontMetrics, point_size: u16, space_advance_units: u16) -> (r: LineStyle)
        requires
            metrics.units_per_em > 0,
        ensures
            r.wf(),
            r.point_size == point_size,
            r.units_per_em == metrics.units_per_em,
            r.space_advance == scale_units(
                space_advance_units as int,
                point_size as int,
                metrics.units_per_em as int,
            ),
            r.line_spacing == scale_units(
                metrics.ascender - metrics.descender + metrics.line_gap,
                point_size as int,
                metrics.units_per_em as int,
            ),
    {
        let space_advance = scale_units_exec(
            space_advance_units as i32,
            point_size,
            metrics.units_per_em,
        );
        proof {
            assert(space_advance_units as int * point_size as int <= 0x1_0000_0000)
                by (nonlinear_arith)
                requires
                    0 <= space_advance_units < 0x1_0000,
                    0 <= point_size < 0x1_0000,
            ;
        }
        let extent: i32 = metrics.ascender as i32 - metrics.descender as i32
            + metrics.line_gap as i32;
        let line_spacing = scale_units_exec(extent, point_size, metrics.units_per_em);
        LineStyle {
            point_size,
            units_per_em: metrics.units_per_em,
            space_advance,
            line_spacing,
        }
    }
}

pub proof fn lemma_glyph_advance_bounds(style: LineStyle, g: ShapedGlyph)
    requires
        style.wf(),
    ensures
        0 <= style.glyph_advance(g) <= g.advance * style.point_size,
{
    let p = g.advance as int * style.point_size as int;
    let u = style.units_per_em as int;
    assert(0 <= p / u <= p) by (nonlinear_arith)
        requires
            p == g.advance as int * style.point_size as int,
            g.advance >= 0,
            style.point_size >= 0,
            u >= 1,
    ;
}

pub proof fn lemma_word_advance_prefix(style: LineStyle, word: Seq<ShapedGlyph>, k: int)
    requires
        style.wf(),
        0 <= k <= word.len(),
    ensures
        0 <= style.word_advance(word.take(k)) <= style.word_advance(word),
    decreases word.len(),
{
    if k == word.len() {
        assert(word.take(k) == word);
        if word.len() > 0 {
            lemma_word_advance_prefix(style, word.drop_last(), k - 1);
            assert(word.drop_last().take(k - 1) == word.drop_last());
            lemma_glyph_advance_bounds(style, word.last());
        }
    } else {
        lemma_word_advance_prefix(style, word.drop_last(), k);
        assert(word.drop_last().take(k) == word.take(k));
        lemma_glyph_advance_bounds(style, word.last());
    }
}

/// The mathematical state of a layout: the glyphs placed so far in reading
/// order, the page width and the pen, all in 1/64 px.
pub struct LayoutState {
    pub positions: Seq<GlyphPosition>,
    pub page_width: int,
    pub cursor_x: int,
    pub cursor_y: int,
}

/// Whether placing `word` wraps to a new line first.
pub open spec fn wraps(s: LayoutState, style: LineStyle, word: Seq<ShapedGlyph>) -> bool {
    s.cursor_x + style.word_advance(word) > s.page_width
}

/// Where the first glyph of `word` goes.
pub open spec fn word_origin(s: LayoutState, style: LineStyle, word: Seq<ShapedGlyph>) -> (int, int) {
    if wraps(s, style, word) {
        (0, s.cursor_y + style.line_spacing)
    } else {
        (s.cursor_x, s.cursor_y)
    }
}

/// Whether placing `word` keeps the pen within the coordinate range.
pub open spec fn word_fits(s: LayoutState, style: LineStyle, word: Seq<ShapedGlyph>) -> bool {
    let (x, y) = word_origin(s, style, word);
    &&& x + style.word_advance(word) + style.space_advance <= COORD_LIMIT
    &&& -COORD_LIMIT <= y <= COORD_LIMIT
}

/// The positions that `word` receives when its first glyph goes at `(x, y)`.
pub open spec fn placed_glyphs(style: LineStyle, word: Seq<ShapedGlyph>, x: int, y: int) -> Seq<GlyphPosition> {
    Seq::new(
        word.len(),
        |k: int|
            GlyphPosition {
                x: (x + style.word_advance(word.take(k))) as i64,
                y: y as i64,
                glyph_id: word[k].glyph_id,
            },
    )
}

/// The layout state after one word: wrap if the word does not fit on the
/// current line, place its glyphs, then advance by one space.
pub open spec fn place_word(s: LayoutState, style: LineStyle, word: Seq<ShapedGlyph>) -> LayoutState {
    let (x, y) = word_origin(s, style, word);
    LayoutState {
        positions: s.positions + placed_glyphs(style, word, x, y),
        page_width: s.page_width,
        cursor_x: x + style.word_advance(word) + style.space_advance,
        cursor_y: y,
    }
}

/// A layout state whose pen and glyphs lie in the coordinate range, with the
/// pen and every glyph at or right of the left margin.
pub open spec fn layout_wf(s: LayoutState) -> bool {
    &&& 0 <= s.cursor_x <= COORD_LIMIT
    &&& -COORD_LIMIT <= s.cursor_y <= COORD_LIMIT
    &&& forall|i: int|
        0 <= i < s.positions.len() ==> {
            &&& 0 <= #[trigger] s.positions[i].x <= COORD_LIMIT
            &&& -COORD_LIMIT <= s.positions[i].y <= COORD_LIMIT
        }
}

/// The layout state after a sequence of words, or `None` where a word would
/// take the pen out of the coordinate range.
pub open spec fn lay_out_words(s: LayoutState, style: LineStyle, words: Seq<Seq<ShapedGlyph>>) -> Option<LayoutState>
    decreases words.len(),
{
    if words.len() == 0 {
        Some(s)
    } else {
        match lay_out_words(s, style, words.drop_last()) {
            Some(t) => if word_fits(t, style, words.last()) {
                Some(place_word(t, style, words.last()))
            } else {
                None
            },
            None => None,
        }
    }
}

pub proof fn lemma_lay_out_words_stops(s: LayoutState, style: LineStyle, words: Seq<Seq<ShapedGlyph>>, i: int)
    requires
        0 <= i <= words.len(),
        lay_out_words(s, style, words.take(i)) is None,
    ensures
        lay_out_words(s, style, words) is None,
    decreases words.len(),
{
    if i == words.len() {
        assert(words.take(i) == words);
    } else {
        assert(words.drop_last().take(i) == words.take(i));
        lemma_lay_out_words_stops(s, style, words.drop_last(), i);
    }
}

/// The shaped words of a word sequence, as sequences.
pub open spec fn words_view(words: Seq<Vec<ShapedGlyph>>) -> Seq<Seq<ShapedGlyph>> {
    words.map_values(|w: Vec<ShapedGlyph>| w@)
}

/// `a` is `b` followed by zero or more glyphs.
pub open spec fn extends(a: Seq<GlyphPosition>, b: Seq<GlyphPosition>) -> bool {
    b.len() <= a.len() && a.subrange(0, b.len() as int) == b
}

/// Access to a font and its shaper for layout.
pub trait TextFont {
    /// A character-to-glyph mapping for a set of characters.
    type Mapping;

    /// Font-wide metrics in design units.
    fn metrics(&self) -> FontMetrics;

    /// The mapping for exactly the characters in `ranges`.
    fn glyph_mapping_for_codepoint_ranges(&self, ranges: &Vec<CodepointRange>) -> Result<Self::Mapping, FontError>;

    /// The advance of the space glyph, in design units.
    fn space_advance(&self, mapping: &Self::Mapping) -> Result<u16, FontError>;

    /// The glyphs of one word, left to right, with advances in design units.
    fn shape_word(&self, mapping: &Self::Mapping, word: &str) -> Result<Vec<ShapedGlyph>, FontError>;
}

/// Every glyph of a placed word lies at or right of the left margin, and at
/// or left of the page width unless the word's own advance exceeds the page
/// width: a word is never split across lines.
pub proof fn lemma_word_within_page(s: LayoutState, style: LineStyle, word: Seq<ShapedGlyph>)
    requires
        layout_wf(s),
        style.wf(),
        word_fits(s, style, word),
        s.page_width > 0,
    ensures
        forall|i: int|
            s.positions.len() <= i < place_word(s, style, word).positions.len() ==> {
                &&& 0 <= #[trigger] place_word(s, style, word).positions[i].x
                &&& style.word_advance(word) <= s.page_width ==> place_word(s, style, word).positions[i].x
                    <= s.page_width
            },
{
    let t = place_word(s, style, word);
    let (x0, y0) = word_origin(s, style, word);
    assert forall|i: int| s.positions.len() <= i < t.positions.len() implies {
        &&& 0 <= #[trigger] t.positions[i].x
        &&& style.word_advance(word) <= s.page_width ==> t.positions[i].x <= s.page_width
    } by {
        let k = i - s.positions.len();
        lemma_word_advance_prefix(style, word, k);
        lemma_word_advance_prefix(style, word, k + 1);
        assert(word.take(k + 1).drop_last() == word.take(k));
        lemma_glyph_advance_bounds(style, word[k]);
        assert(t.positions[i] == placed_glyphs(style, word, x0, y0)[k]);
    }
}

/// Placing a word moves the pen down by exactly the line spacing when the
/// word wraps and leaves it where it was otherwise, and the word's glyphs sit
/// on the pen's new line; so with a non-negative line spacing the pen never
/// moves up.
pub proof fn lemma_line_advance(s: LayoutState, style: LineStyle, word: Seq<ShapedGlyph>)
    requires
        layout_wf(s),
        style.wf(),
        word_fits(s, style, word),
    ensures
        place_word(s, style, word).cursor_y == s.cursor_y + if wraps(s, style, word) {
            style.line_spacing as int
        } else {
            0
        },
        style.line_spacing >= 0 ==> place_word(s, style, word).cursor_y >= s.cursor_y,
        forall|i: int|
            s.positions.len() <= i < place_word(s, style, word).positions.len()
                ==> #[trigger] place_word(s, style, word).positions[i].y == place_word(s, style, word).cursor_y,
{
    let t = place_word(s, style, word);
    let (x0, y0) = word_origin(s, style, word);
    assert forall|i: int| s.positions.len() <= i < t.positions.len() implies #[trigger] t.positions[i].y == t.cursor_y by {
        assert(t.positions[i] == placed_glyphs(style, word, x0, y0)[i - s.positions.len()]);
    }
}

/// Over any sequence of words laid out with a non-negative line spacing, the
/// pen never moves up.
pub proof fn lemma_cursor_y_never_decreases(s: LayoutState, style: LineStyle, words: Seq<Seq<ShapedGlyph>>)
    requires
        layout_wf(s),
        style.wf(),
        style.line_spacing >= 0,
        lay_out_words(s, style, words) is Some,
    ensures
        lay_out_words(s, style, words).unwrap().cursor_y >= s.cursor_y,
        layout_wf(lay_out_words(s, style, words).unwrap()),
    decreases words.len(),
{
    if words.len() > 0 {
        lemma_cursor_y_never_decreases(s, style, words.drop_last());
        let t = lay_out_words(s, style, words.drop_last()).unwrap();
        lemma_line_advance(t, style, words.last());
        lemma_place_word_wf(t, style, words.last());
    }
}

/// Over a whole layout pass on a page of positive width, every glyph placed
/// lies at or right of the left margin, and when no word's own advance
/// exceeds the page width, at or left of the page width too.
pub proof fn lemma_pass_within_page(s: LayoutState, style: LineStyle, words: Seq<Seq<ShapedGlyph>>)
    requires
        layout_wf(s),
        style.wf(),
        s.page_width > 0,
        lay_out_words(s, style, words) is Some,
    ensures
        forall|i: int|
            s.positions.len() <= i < lay_out_words(s, style, words).unwrap().positions.len() ==> {
                &&& 0 <= #[trigger] lay_out_words(s, style, words).unwrap().positions[i].x
                &&& (forall|w: int| 0 <= w < words.len() ==> style.word_advance(#[trigger] words[w]) <= s.page_width)
                    ==> lay_out_words(s, style, words).unwrap().positions[i].x <= s.page_width
            },
    decreases words.len(),
{
    if words.len() > 0 {
        let prev = words.drop_last();
        lemma_pass_within_page(s, style, prev);
        lemma_lay_out_words_wf(s, style, prev);
        let t = lay_out_words(s, style, prev).unwrap();
        let u = lay_out_words(s, style, words).unwrap();
        lemma_word_within_page(t, style, words.last());
        lemma_place_word_positions(t, style, words.last());
        assert forall|i: int| s.positions.len() <= i < u.positions.len() implies {
            &&& 0 <= #[trigger] u.positions[i].x
            &&& (forall|w: int| 0 <= w < words.len() ==> style.word_advance(#[trigger] words[w]) <= s.page_width)
                ==> u.positions[i].x <= s.page_width
        } by {
            if i < t.positions.len() {
                assert(u.positions[i] == t.positions[i]);
                if forall|w: int| 0 <= w < words.len() ==> style.word_advance(#[trigger] words[w]) <= s.page_width {
                    assert forall|w: int| 0 <= w < prev.len() implies style.word_advance(#[trigger] prev[w]) <= s.page_width by {
                        assert(prev[w] == words[w]);
                    }
                }
            } else {
                assert(words.last() == words[words.len() - 1]);
            }
        }
    }
}

/// Over a whole layout pass with a non-negative line spacing, the glyphs
/// placed go down the page in reading order, each at or below the pen's
/// line before the pass and at or above its line after it.
pub proof fn lemma_pass_lines_descend(s: LayoutState, style: LineStyle, words: Seq<Seq<ShapedGlyph>>)
    requires
        layout_wf(s),
        style.wf(),
        style.line_spacing >= 0,
        lay_out_words(s, style, words) is Some,
    ensures
        lay_out_words(s, style, words).unwrap().cursor_y >= s.cursor_y,
        forall|i: int, j: int|
            s.positions.len() <= i < j < lay_out_words(s, style, words).unwrap().positions.len() ==> #[trigger] lay_out_words(
                s,
                style,
                words,
            ).unwrap().positions[i].y <= #[trigger] lay_out_words(s, style, words).unwrap().positions[j].y,
        forall|i: int|
            s.positions.len() <= i < lay_out_words(s, style, words).unwrap().positions.len() ==> s.cursor_y
                <= #[trigger] lay_out_words(s, style, words).unwrap().positions[i].y
                <= lay_out_words(s, style, words).unwrap().cursor_y,
    decreases words.len(),
{
    lemma_cursor_y_never_decreases(s, style, words);
    if words.len() > 0 {
        let prev = words.drop_last();
        lemma_pass_lines_descend(s, style, prev);
        lemma_cursor_y_never_decreases(s, style, prev);
        let t = lay_out_words(s, style, prev).unwrap();
        let u = lay_out_words(s, style, words).unwrap();
        lemma_line_advance(t, style, words.last());
        assert forall|i: int| s.positions.len() <= i < u.positions.len() implies s.cursor_y
            <= #[trigger] u.positions[i].y <= u.cursor_y by {
            if i < t.positions.len() {
                assert(u.positions[i] == t.positions[i]);
            }
        }
        assert forall|i: int, j: int| s.positions.len() <= i < j < u.positions.len() implies #[trigger] u.positions[i].y
            <= #[trigger] u.positions[j].y by {
            if j < t.positions.len() {
                assert(u.positions[i] == t.positions[i]);
                assert(u.positions[j] == t.positions[j]);
            } else if i < t.positions.len() {
                assert(u.positions[i] == t.positions[i]);
            }
        }
    }
}

/// A layout pass keeps the state well formed.
proof fn lemma_lay_out_words_wf(s: LayoutState, style: LineStyle, words: Seq<Seq<ShapedGlyph>>)
    requires
        layout_wf(s),
        style.wf(),
        lay_out_words(s, style, words) is Some,
    ensures
        layout_wf(lay_out_words(s, style, words).unwrap()),
        lay_out_words(s, style, words).unwrap().page_width == s.page_width,
        s.positions.len() <= lay_out_words(s, style, words).unwrap().positions.len(),
    decreases words.len(),
{
    if words.len() > 0 {
        lemma_lay_out_words_wf(s, style, words.drop_last());
        let t = lay_out_words(s, style, words.drop_last()).unwrap();
        lemma_place_word_wf(t, style, words.last());
    }
}

/// Placing a word keeps the glyphs before it.
proof fn lemma_place_word_positions(s: LayoutState, style: LineStyle, word: Seq<ShapedGlyph>)
    ensures
        forall|i: int| 0 <= i < s.positions.len() ==> #[trigger] place_word(s, style, word).positions[i] == s.positions[i],
        place_word(s, style, word).positions.len() == s.positions.len() + word.len(),
{
}

/// Placing a word that fits keeps the layout state well formed.
pub proof fn lemma_place_word_wf(s: LayoutState, style: LineStyle, word: Seq<ShapedGlyph>)
    requires
        layout_wf(s),
        style.wf(),
        word_fits(s, style, word),
    ensures
        layout_wf(place_word(s, style, word)),
{
    let t = place_word(s, style, word);
    let (x0, y0) = word_origin(s, style, word);
    assert forall|j: int| 0 <= j < t.positions.len() implies {
        &&& 0 <= #[trigger] t.positions[j].x <= COORD_LIMIT
        &&& -COORD_LIMIT <= t.positions[j].y <= COORD_LIMIT
    } by {
        if j >= s.positions.len() {
            lemma_word_advance_prefix(style, word, j - s.positions.len());
            assert(t.positions[j] == placed_glyphs(style, word, x0, y0)[j - s.positions.len()]);
        }
    }
    lemma_word_advance_prefix(style, word, 0);
}

/// The glyph identifiers of a layout, in reading order.
pub open spec fn glyph_ids_of(positions: Seq<GlyphPosition>) -> Seq<u16> {
    positions.map_values(|p: GlyphPosition| p.glyph_id)
}

/// A store built from a layout's glyphs gives each glyph of that layout a
/// dense index.
pub proof fn lemma_store_covers_layout<O>(s: LayoutState, store: GlyphStore<O>)
    requires
        store.covers_exactly(glyph_ids_of(s.positions)),
    ensures
        forall|i: int| 0 <= i < s.positions.len() ==> (#[trigger] store.index_of(s.positions[i].glyph_id)) is Some,
{
    assert forall|i: int| 0 <= i < s.positions.len() implies (#[trigger] store.index_of(s.positions[i].glyph_id)) is Some by {
        assert(glyph_ids_of(s.positions)[i] == s.positions[i].glyph_id);
        assert(glyph_ids_of(s.positions).contains(s.positions[i].glyph_id));
    }
}

/// Lays out text on a page of fixed width, one word after another.
#[derive(Clone, Debug)]
pub struct Typesetter {
    glyph_positions: Vec<GlyphPosition>,
    page_width: i64,
    cursor_x: i64,
    cursor_y: i64,
}

impl View for Typesetter {
    type V = LayoutState;

    closed spec fn view(&self) -> LayoutState {
        LayoutState {
            positions: self.glyph_positions@,
            page_width: self.page_width as int,
            cursor_x: self.cursor_x as int,
            cursor_y: self.cursor_y as int,
        }
    }
}

impl Typesetter {
    pub open spec fn wf(&self) -> bool {
        layout_wf(self@)
    }

    /// An empty page of width `page_width` (1/64 px) whose first baseline lies
    /// one ascender of `initial_font` at `initial_point_size` (1/64 pt) below
    /// the top.
    pub fn new(page_width: i64, initial_font: &FontMetrics, initial_point_size: u16) -> (r: Typesetter)
        requires
            initial_font.units_per_em > 0,
        ensures
            r.wf(),
            r@.positions == Seq::<GlyphPosition>::empty(),
            r@.page_width == page_width,
            r@.cursor_x == 0,
            r@.cursor_y == scale_units(
                initial_font.ascender as int,
                initial_point_size as int,
                initial_font.units_per_em as int,
            ),
    {
        let y = scale_units_exec(
            initial_font.ascender as i32,
            initial_point_size,
            initial_font.units_per_em,
        );
        proof {
            let a = initial_font.ascender as int;
            let p = initial_point_size as int;
            assert(-0x8000_0000 <= a * p <= 0x8000_0000) by (nonlinear_arith)
                requires
                    -0x8000 <= a < 0x8000,
                    0 <= p < 0x1_0000,
            ;
        }
        Typesetter { glyph_positions: Vec::new(), page_width, cursor_x: 0, cursor_y: y }
    }

    /// The glyphs placed so far, in reading order.
    pub fn glyph_positions(&self) -> (r: &[GlyphPosition])
        ensures
            r@ == self@.positions,
    {
        self.glyph_positions.as_slice()
    }

    /// The pen position, in 1/64 px.
    pub fn cursor(&self) -> (r: (i64, i64))
        ensures
            r.0 == self@.cursor_x,
            r.1 == self@.cursor_y,
    {
        (self.cursor_x, self.cursor_y)
    }

    /// The page width, in 1/64 px.
    pub fn page_width(&self) -> (r: i64)
        ensures
            r == self@.page_width,
    {
        self.page_width
    }

    /// Places one shaped word: wraps first when the word does not fit on the
    /// current line, then advances the pen past the word and one space. A
    /// word is never split, so one wider than the page overflows it.
    pub fn add_word(&mut self, style: &LineStyle, word: &Vec<ShapedGlyph>) -> (r: Result<(), TypesetError>)
        requires
            old(self).wf(),
            style.wf(),
        ensures
            final(self).wf(),
            word_fits(old(self)@, *style, word@) ==> r is Ok && final(self)@ == place_word(
                old(self)@,
                *style,
                word@,
            ),
            !word_fits(old(self)@, *style, word@) ==> r == Err::<(), TypesetError>(
                TypesetError::CoordinateOverflow,
            ) && final(self)@ == old(self)@,
    {
        let ghost s = self@;
        let mut total: i64 = 0;
        let mut i: usize = 0;
        while i < word.len()
            invariant
                0 <= i <= word.len(),
                total == style.word_advance(word@.take(i as int)),
                0 <= total <= COORD_LIMIT,
                style.wf(),
                self@ == s,
                layout_wf(s),
            decreases word.len() - i,
        {
            let a = scale_units_exec(word[i].advance as i32, style.point_size, style.units_per_em);
            proof {
                assert(word@.take(i + 1).drop_last() == word@.take(i as int));
                lemma_word_advance_prefix(*style, word@, i + 1);
            }
            if a > COORD_LIMIT - total {
                return Err(TypesetError::CoordinateOverflow);
            }
            total = total + a;
            i = i + 1;
        }
        proof {
            assert(word@.take(i as int) == word@);
        }
        let x0: i64;
        let y0: i64;
        if self.cursor_x + total > self.page_width {
            x0 = 0;
            y0 = self.cursor_y + style.line_spacing;
        } else {
            x0 = self.cursor_x;
            y0 = self.cursor_y;
        }
        if total + style.space_advance > COORD_LIMIT - x0 || y0 < -COORD_LIMIT || y0 > COORD_LIMIT {
            return Err(TypesetError::CoordinateOverflow);
        }
        let mut x: i64 = x0;
        let mut k: usize = 0;
        while k < word.len()
            invariant
                0 <= k <= word.len(),
                style.wf(),
                layout_wf(s),
                total == style.word_advance(word@),
                0 <= x0,
                x0 + total <= COORD_LIMIT,
                -COORD_LIMIT <= y0 <= COORD_LIMIT,
                x == x0 + style.word_advance(word@.take(k as int)),
                self.glyph_positions@ == s.positions + placed_glyphs(*style, word@, x0 as int, y0 as int).take(k as int),
                self.page_width == s.page_width,
                self.cursor_x == s.cursor_x,
                self.cursor_y == s.cursor_y,
            decreases word.len() - k,
        {
            proof {
                lemma_word_advance_prefix(*style, word@, k as int);
                lemma_word_advance_prefix(*style, word@, k + 1);
                assert(word@.take(k + 1).drop_last() == word@.take(k as int));
            }
            self.glyph_positions.push(GlyphPosition { x, y: y0, glyph_id: word[k].glyph_id });
            let a = scale_units_exec(word[k].advance as i32, style.point_size, style.units_per_em);
            x = x + a;
            k = k + 1;
            proof {
                assert(self.glyph_positions@ == s.positions + placed_glyphs(*style, word@, x0 as int, y0 as int).take(k as int));
            }
        }
        self.cursor_x = x0 + total + style.space_advance;
        self.cursor_y = y0;
        proof {
            assert(placed_glyphs(*style, word@, x0 as int, y0 as int).take(k as int)
                == placed_glyphs(*style, word@, x0 as int, y0 as int));
            assert(self@ == place_word(s, *style, word@));
            lemma_place_word_wf(s, *style, word@);
        }
        Ok(())
    }

    /// Builds a glyph store for the distinct glyphs placed so far.
    pub fn create_glyph_store<B: OutlineBuilder>(&self, builder: &mut B) -> (r: Result<GlyphStore<B::Outlines>, GlyphStoreCreationError>)
        ensures
            r matches Ok(store) ==> {
                &&& store.wf()
                &&& store.covers_exactly(glyph_ids_of(self@.positions))
                &&& crate::glyph_store::is_lookup_len(
                    glyph_ids_of(self@.positions),
                    store.glyph_id_to_glyph_index@.len() as int,
                )
            },
    {
        let mut glyph_ids: Vec<u16> = Vec::new();
        let mut i: usize = 0;
        while i < self.glyph_positions.len()
            invariant
                0 <= i <= self.glyph_positions.len(),
                glyph_ids@ == glyph_ids_of(self@.positions).take(i as int),
            decreases self.glyph_positions.len() - i,
        {
            glyph_ids.push(self.glyph_positions[i].glyph_id);
            i = i + 1;
            proof {
                assert(glyph_ids@ == glyph_ids_of(self@.positions).take(i as int));
            }
        }
        proof {
            assert(glyph_ids@ == glyph_ids_of(self@.positions));
        }
        GlyphStore::from_glyph_ids(glyph_ids, builder)
    }

    /// The glyphs whose snapped quads overlap `bounding_rect`, at
    /// `point_size` (1/64 pt) and `scale` (26.6 fixed point), with origins
    /// snapped to `1 / subpixel_granularity` px. Glyphs that `glyph_store`
    /// does not cover are skipped.
    pub fn positioned_glyphs_in_rect<O>(
        &self,
        bounding_rect: &Rect,
        glyph_store: &GlyphStore<O>,
        point_size: u16,
        scale: u16,
        subpixel_granularity: u16,
    ) -> (r: Vec<PositionedGlyph>)
        requires
            self.wf(),
            glyph_store.wf(),
            subpixel_granularity >= 1,
        ensures
            r@ == visible_quads(
                self@.positions,
                *glyph_store,
                *bounding_rect,
                point_size,
                scale,
                subpixel_granularity,
            ),
    {
        let positions = self.glyph_positions.as_slice();
        proof {
            assert forall|i: int| 0 <= i < positions@.len() implies -COORD_LIMIT <= #[trigger] positions@[i].x
                <= COORD_LIMIT && -COORD_LIMIT <= positions@[i].y <= COORD_LIMIT by {
                assert(positions@[i] == self@.positions[i]);
            }
        }
        visible_glyphs(
            positions,
            glyph_store,
            bounding_rect,
            point_size,
            scale,
            subpixel_granularity,
        )
    }

    /// Places shaped words one after another, stopping at the first word that
    /// would take the pen out of the coordinate range.
    pub fn add_words(&mut self, style: &LineStyle, words: &Vec<Vec<ShapedGlyph>>) -> (r: Result<(), TypesetError>)
        requires
            old(self).wf(),
            style.wf(),
        ensures
            final(self).wf(),
            final(self)@.page_width == old(self)@.page_width,
            extends(final(self)@.positions, old(self)@.positions),
            match lay_out_words(old(self)@, *style, words_view(words@)) {
                Some(t) => r is Ok && final(self)@ == t,
                None => r == Err::<(), TypesetError>(TypesetError::CoordinateOverflow),
            },
            r is Err ==> exists|i: int|
                0 <= i < words@.len() && #[trigger] lay_out_words(
                    old(self)@,
                    *style,
                    words_view(words@).take(i),
                ) == Some(final(self)@) && lay_out_words(
                    old(self)@,
                    *style,
                    words_view(words@).take(i + 1),
                ) is None,
    {
        let ghost s = self@;
        let ghost ws = words_view(words@);
        proof {
            assert(s.positions.subrange(0, s.positions.len() as int) == s.positions);
        }
        let mut i: usize = 0;
        while i < words.len()
            invariant
                0 <= i <= words.len(),
                ws == words_view(words@),
                style.wf(),
                self.wf(),
                lay_out_words(s, *style, ws.take(i as int)) == Some(self@),
                s == old(self)@,
                self@.page_width == s.page_width,
                extends(self@.positions, s.positions),
            decreases words.len() - i,
        {
            let ghost before = self@;
            proof {
                assert(ws.take(i + 1).drop_last() == ws.take(i as int));
                assert(ws.take(i + 1).last() == words@[i as int]@);
            }
            match self.add_word(style, &words[i]) {
                Ok(()) => {},
                Err(e) => {
                    proof {
                        lemma_lay_out_words_stops(s, *style, ws, i + 1);
                        assert(lay_out_words(s, *style, ws.take(i as int)) == Some(self@));
                    }
                    return Err(e);
                },
            }
            i = i + 1;
            proof {
                assert(self@.positions.subrange(0, s.positions.len() as int)
                    == before.positions.subrange(0, s.positions.len() as int));
            }
        }
        proof {
            assert(ws.take(i as int) == ws);
        }
        Ok(())
    }

    /// Maps the characters of `text` and the space with `font`, shapes each
    /// word of `text` at `point_size` (1/64 pt) and places the words. Nothing
    /// is placed when the font fails; a word that
    /// would take the pen out of the coordinate range stops the pass, and
    /// the words before it stay placed.
    pub fn add_text<F: TextFont>(&mut self, font: &F, point_size: u16, text: &str) -> (r: Result<(), TypesetError>)
        requires
            old(self).wf(),
        ensures
            final(self).wf(),
            final(self)@.page_width == old(self)@.page_width,
            extends(final(self)@.positions, old(self)@.positions),
            r matches Err(TypesetError::FontError(_)) ==> final(self)@ == old(self)@,
            r == Err::<(), TypesetError>(TypesetError::ZeroUnitsPerEm) ==> final(self)@ == old(self)@,
            r is Ok ==> exists|style: LineStyle, words: Seq<Seq<ShapedGlyph>>|
                #[trigger] lay_out_words(old(self)@, style, words) == Some(final(self)@) && style.wf()
                    && style.point_size == point_size && exists|spans: Seq<(usize, usize)>|
                    #[trigger] crate::text::are_word_spans(text@, spans) && spans.len() == words.len(),
            r == Err::<(), TypesetError>(TypesetError::CoordinateOverflow) ==> exists|
                style: LineStyle,
                words: Seq<Seq<ShapedGlyph>>,
                i: int,
            |
                0 <= i < words.len() && #[trigger] lay_out_words(old(self)@, style, words.take(i)) == Some(
                    final(self)@,
                ) && lay_out_words(old(self)@, style, words.take(i + 1)) is None && style.wf()
                    && style.point_size == point_size && exists|spans: Seq<(usize, usize)>|
                    #[trigger] crate::text::are_word_spans(text@, spans) && spans.len() == words.len(),
    {
        let ghost s = self@;
        proof {
            assert(s.positions.subrange(0, s.positions.len() as int) == s.positions);
        }
        let codepoint_ranges = text_codepoint_ranges(text);
        let mapping = match font.glyph_mapping_for_codepoint_ranges(&codepoint_ranges.ranges) {
            Ok(m) => m,
            Err(e) => {
                return Err(TypesetError::FontError(e));
            },
        };
        let metrics = font.metrics();
        if metrics.units_per_em == 0 {
            return Err(TypesetError::ZeroUnitsPerEm);
        }
        let space_units = match font.space_advance(&mapping) {
            Ok(a) => a,
            Err(e) => {
                return Err(TypesetError::FontError(e));
            },
        };
        let style = LineStyle::new(&metrics, point_size, space_units);
        let spans = word_spans(text);
        let mut words: Vec<Vec<ShapedGlyph>> = Vec::new();
        let mut k: usize = 0;
        while k < spans.len()
            invariant
                0 <= k <= spans.len(),
                crate::text::are_word_spans(text@, spans@),
                self@ == s,
                self.wf(),
                extends(s.positions, s.positions),
                words.len() == k,
            decreases spans.len() - k,
        {
            let (a, b) = spans[k];
            proof {
                assert(crate::text::is_word_span(text@, spans@[k as int].0 as int, spans@[k as int].1 as int));
            }
            match font.shape_word(&mapping, text.substring_char(a, b)) {
                Ok(glyphs) => words.push(glyphs),
                Err(e) => {
                    return Err(TypesetError::FontError(e));
                },
            }
            k = k + 1;
        }
        let r = self.add_words(&style, &words);
        proof {
            assert(crate::text::are_word_spans(text@, spans@));
            if r is Ok {
                assert(lay_out_words(s, style, words_view(words@)) == Some(self@));
            } else {
                let i = choose|i: int|
                    0 <= i < words@.len() && #[trigger] lay_out_words(s, style, words_view(words@).take(i))
                        == Some(self@) && lay_out_words(s, style, words_view(words@).take(i + 1)) is None;
                assert(words_view(words@).len() == words@.len());
            }
        }
        r
    }
}

} // verus!
