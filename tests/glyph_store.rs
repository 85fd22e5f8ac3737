use pathfinder_typesetter::cull::visible_glyphs;
use pathfinder_typesetter::glyph_store::distinct_ascending;
use pathfinder_typesetter::{
    CodepointRange, CodepointRanges, FontError, FontMetrics, GlError, GlyphBounds, GlyphMapping,
    GlyphPosition, GlyphStore, GlyphStoreCreationError, OutlineBuilder, Rect, ShapedGlyph,
    TextFont, Typesetter,
};

struct Builder {
    added: Vec<u16>,
    fail_glyph: Option<u16>,
    fail_buffers: bool,
    buffers_built: bool,
}

fn builder() -> Builder {
    Builder { added: Vec::new(), fail_glyph: None, fail_buffers: false, buffers_built: false }
}

fn bounds() -> GlyphBounds {
    GlyphBounds { left: 0, bottom: -200, right: 500, top: 700 }
}

impl OutlineBuilder for Builder {
    type Outlines = Vec<u16>;

    fn units_per_em(&self) -> u16 {
        1000
    }

    fn add_glyph(&mut self, glyph_id: u16) -> Result<GlyphBounds, FontError> {
        if Some(glyph_id) == self.fail_glyph {
            return Err(FontError::GlyphNotFound);
        }
        self.added.push(glyph_id);
        Ok(bounds())
    }

    fn create_buffers(&mut self) -> Result<Vec<u16>, GlError> {
        if self.fail_buffers {
            return Err(GlError { code: 0x505 });
        }
        self.buffers_built = true;
        Ok(self.added.clone())
    }
}

struct Cmap;

impl GlyphMapping for Cmap {
    fn glyph_ids_for_codepoint_ranges(&self, ranges: &Vec<CodepointRange>) -> Result<Vec<u16>, FontError> {
        let mut ids = Vec::new();
        for r in ranges {
            for c in r.start..=r.end {
                ids.push((c % 50) as u16);
            }
        }
        Ok(ids)
    }
}

struct Mono;

impl TextFont for Mono {
    type Mapping = ();

    fn metrics(&self) -> FontMetrics {
        FontMetrics { units_per_em: 1000, ascender: 800, descender: -200, line_gap: 200 }
    }

    fn glyph_mapping_for_codepoint_ranges(&self, _ranges: &Vec<CodepointRange>) -> Result<(), FontError> {
        Ok(())
    }

    fn space_advance(&self, _mapping: &()) -> Result<u16, FontError> {
        Ok(600)
    }

    fn shape_word(&self, _mapping: &(), word: &str) -> Result<Vec<ShapedGlyph>, FontError> {
        Ok(word.chars().map(|c| ShapedGlyph { glyph_id: c as u16, advance: 600 }).collect())
    }
}

#[test]
fn identifiers_map_to_dense_indices_in_order() {
    let mut b = builder();
    let store = GlyphStore::from_glyph_ids(vec![5, 2, 5, 9, 2], &mut b).unwrap();
    assert_eq!(b.added, vec![2, 5, 9]);
    assert!(b.buffers_built);
    assert_eq!(store.glyph_index(2), Some(0));
    assert_eq!(store.glyph_index(5), Some(1));
    assert_eq!(store.glyph_index(9), Some(2));
    assert_eq!(store.glyph_index(3), None);
    assert_eq!(store.glyph_index(10), None);
    assert_eq!(store.glyph_index(u16::MAX), None);
    assert_eq!(store.glyph_id_to_glyph_index.len(), 10);
    assert_eq!(store.all_glyph_indices, vec![0, 1, 2]);
    assert_eq!(store.glyph_bounds.len(), 3);
    assert_eq!(store.outlines, vec![2, 5, 9]);
}

#[test]
fn distinct_ascending_sorts_and_dedups() {
    assert_eq!(distinct_ascending(&vec![9, 2, 9, 0, 65535, 2]), vec![0, 2, 9, 65535]);
    assert_eq!(distinct_ascending(&vec![]), Vec::<u16>::new());
}

#[test]
fn assemble_store_indexes_by_position() {
    let store = GlyphStore::assemble_store(&vec![4, 7], vec![bounds(), bounds()], 2048, "batch");
    assert_eq!(store.glyph_id_to_glyph_index, vec![65535, 65535, 65535, 65535, 0, 65535, 65535, 1]);
    assert_eq!(store.all_glyph_indices, vec![0, 1]);
    assert_eq!(store.units_per_em, 2048);
    assert_eq!(store.outlines, "batch");
}

#[test]
fn every_identifier_cannot_be_indexed() {
    let mut b = builder();
    let all: Vec<u16> = (0..=u16::MAX).collect();
    let r = GlyphStore::from_glyph_ids(all, &mut b);
    assert_eq!(r.err(), Some(GlyphStoreCreationError::FontError(FontError::GlyphNotFound)));
    assert!(b.added.is_empty());
}

#[test]
fn empty_identifier_set_gives_empty_store() {
    let mut b = builder();
    let store = GlyphStore::from_glyph_ids(vec![], &mut b).unwrap();
    assert!(b.added.is_empty());
    assert!(store.glyph_id_to_glyph_index.is_empty());
    assert!(store.all_glyph_indices.is_empty());
    assert_eq!(store.glyph_index(0), None);
}

#[test]
fn distinct_identifiers_get_distinct_indices() {
    let ids: Vec<u16> = (0..400u16).map(|i| (i * 37) % 1000).collect();
    let mut b = builder();
    let store = GlyphStore::from_glyph_ids(ids.clone(), &mut b).unwrap();
    let mut seen = std::collections::HashSet::new();
    for id in &ids {
        let index = store.glyph_index(*id).unwrap();
        seen.insert((*id, index));
    }
    let indices: std::collections::HashSet<u16> = seen.iter().map(|p| p.1).collect();
    assert_eq!(indices.len(), seen.len());
    let mut image: Vec<u16> = indices.into_iter().collect();
    image.sort();
    assert_eq!(store.all_glyph_indices, image);
}

#[test]
fn outline_failure_aborts_construction() {
    let mut b = builder();
    b.fail_glyph = Some(5);
    let r = GlyphStore::from_glyph_ids(vec![9, 5, 2], &mut b);
    assert_eq!(r.err(), Some(GlyphStoreCreationError::FontError(FontError::GlyphNotFound)));
    assert_eq!(b.added, vec![2]);
    assert!(!b.buffers_built);
}

#[test]
fn backend_failure_is_reported() {
    let mut b = builder();
    b.fail_buffers = true;
    let r = GlyphStore::from_glyph_ids(vec![1], &mut b);
    assert_eq!(r.err(), Some(GlyphStoreCreationError::GlError(GlError { code: 0x505 })));
}

#[test]
fn store_from_codepoints() {
    let ranges = CodepointRanges { ranges: vec![CodepointRange { start: 48, end: 52 }] };
    let mut b = builder();
    let store = GlyphStore::from_codepoints(&ranges, &Cmap, &mut b).unwrap();
    assert_eq!(b.added, vec![0, 1, 2, 48, 49]);
    assert_eq!(store.glyph_index(48), Some(3));
}

#[test]
fn store_covers_every_laid_out_glyph() {
    let metrics = Mono.metrics();
    let mut t = Typesetter::new(30 * 64, &metrics, 640);
    assert_eq!(t.add_text(&Mono, 640, "the quick brown fox"), Ok(()));
    let mut b = builder();
    let store = t.create_glyph_store(&mut b).unwrap();
    for p in t.glyph_positions() {
        assert!(store.glyph_index(p.glyph_id).is_some());
    }
    assert_eq!(store.glyph_index('z' as u16), None);
}

fn one_glyph_store() -> GlyphStore<Vec<u16>> {
    let mut b = builder();
    GlyphStore::from_glyph_ids(vec![65], &mut b).unwrap()
}

fn page() -> Rect {
    Rect { x: 0, y: 0, width: 6400, height: 6400 }
}

#[test]
fn quad_is_snapped_to_subpixel_bucket() {
    let store = one_glyph_store();
    let positions = [GlyphPosition { x: 1162, y: 512, glyph_id: 65 }];
    let quads = visible_glyphs(&positions, &store, &page(), 640, 64, 4);
    assert_eq!(quads.len(), 1);
    let g = quads[0];
    assert_eq!((g.bounds.x, g.subpixel_x), (18, 1));
    assert_eq!(g.bounds.y, 1);
    assert_eq!((g.bounds.width, g.bounds.height), (320, 576));
    assert_eq!(g.glyph_index, 0);
}

#[test]
fn scale_applies_to_origin_and_size() {
    let store = one_glyph_store();
    let positions = [GlyphPosition { x: 1162, y: 512, glyph_id: 65 }];
    let quads = visible_glyphs(&positions, &store, &page(), 640, 128, 4);
    let g = quads[0];
    assert_eq!((g.bounds.x, g.subpixel_x, g.bounds.y), (36, 1, 2));
    assert_eq!((g.bounds.width, g.bounds.height), (640, 1152));
}

#[test]
fn negative_origin_keeps_bucket_in_range() {
    let store = one_glyph_store();
    let positions = [GlyphPosition { x: -10, y: 512, glyph_id: 65 }];
    let quads = visible_glyphs(&positions, &store, &page(), 640, 64, 4);
    assert_eq!((quads[0].bounds.x, quads[0].subpixel_x), (-1, 3));
}

#[test]
fn halves_round_up_when_snapping() {
    let store = one_glyph_store();
    let positions = [
        GlyphPosition { x: 8, y: 512, glyph_id: 65 },
        GlyphPosition { x: 24, y: 512, glyph_id: 65 },
        GlyphPosition { x: 7, y: 32, glyph_id: 65 },
    ];
    let quads = visible_glyphs(&positions, &store, &page(), 640, 64, 4);
    assert_eq!((quads[0].bounds.x, quads[0].subpixel_x), (0, 1));
    assert_eq!((quads[1].bounds.x, quads[1].subpixel_x), (0, 2));
    // y = 0.5 px rounds up to 1 px; the top edge rounds up to 7 px.
    assert_eq!((quads[2].bounds.x, quads[2].subpixel_x, quads[2].bounds.y), (0, 0, -6));
}

#[test]
fn subpixel_buckets_stay_below_granularity() {
    let store = one_glyph_store();
    let positions: Vec<GlyphPosition> =
        (-300..300).map(|x| GlyphPosition { x, y: 512, glyph_id: 65 }).collect();
    for n in [1u16, 3, 4, 7, 16] {
        for g in visible_glyphs(&positions, &store, &page(), 640, 64, n) {
            assert!(g.subpixel_x < n);
        }
    }
}

#[test]
fn absent_glyphs_are_skipped() {
    let store = one_glyph_store();
    let positions = [
        GlyphPosition { x: 0, y: 512, glyph_id: 99 },
        GlyphPosition { x: 64, y: 512, glyph_id: 65 },
    ];
    let quads = visible_glyphs(&positions, &store, &page(), 640, 64, 4);
    assert_eq!(quads.len(), 1);
    assert_eq!(quads[0].bounds.x, 1);
}

#[test]
fn disjoint_rect_yields_nothing() {
    let store = one_glyph_store();
    let positions = [GlyphPosition { x: 1162, y: 512, glyph_id: 65 }];
    let far = Rect { x: 100_000, y: 0, width: 64, height: 64 };
    assert!(visible_glyphs(&positions, &store, &far, 640, 64, 4).is_empty());
}

#[test]
fn touching_edges_do_not_intersect() {
    let store = one_glyph_store();
    let positions = [GlyphPosition { x: 1162, y: 512, glyph_id: 65 }];
    // The snapped left edge lies at 18.25 px = 1168 / 64 px.
    let touching = Rect { x: 0, y: 0, width: 1168, height: 6400 };
    let overlapping = Rect { x: 0, y: 0, width: 1169, height: 6400 };
    assert!(visible_glyphs(&positions, &store, &touching, 640, 64, 4).is_empty());
    assert_eq!(visible_glyphs(&positions, &store, &overlapping, 640, 64, 4).len(), 1);
}

#[test]
fn query_matches_brute_force() {
    let metrics = Mono.metrics();
    let mut t = Typesetter::new(30 * 64, &metrics, 640);
    assert_eq!(t.add_text(&Mono, 640, "lorem ipsum dolor sit amet consectetur"), Ok(()));
    let mut b = builder();
    let store = t.create_glyph_store(&mut b).unwrap();
    let window = Rect { x: 5 * 64, y: 10 * 64, width: 10 * 64, height: 12 * 64 };
    let got = t.positioned_glyphs_in_rect(&window, &store, 640, 64, 4);
    let all = t.positioned_glyphs_in_rect(&Rect { x: -100_000, y: -100_000, width: 200_000, height: 200_000 }, &store, 640, 64, 4);
    assert_eq!(all.len(), t.glyph_positions().len());
    let expected: Vec<_> = all
        .iter()
        .filter(|g| {
            let left = 64 * (g.bounds.x * 4 + g.subpixel_x as i64);
            left < 4 * (window.x + window.width)
                && 4 * window.x < left + 4 * g.bounds.width
                && 64 * g.bounds.y < window.y + window.height
                && window.y < 64 * g.bounds.y + g.bounds.height
        })
        .map(|g| (g.bounds.x, g.bounds.y, g.subpixel_x, g.glyph_index))
        .collect();
    let got: Vec<_> = got.iter().map(|g| (g.bounds.x, g.bounds.y, g.subpixel_x, g.glyph_index)).collect();
    assert_eq!(got, expected);
    assert!(!got.is_empty() && got.len() < all.len());
}

#[test]
fn largest_identifier_is_indexed() {
    let mut b = builder();
    let store = GlyphStore::from_glyph_ids(vec![u16::MAX, 3], &mut b).unwrap();
    assert_eq!(store.glyph_id_to_glyph_index.len(), 65536);
    assert_eq!(store.glyph_index(3), Some(0));
    assert_eq!(store.glyph_index(u16::MAX), Some(1));
}
