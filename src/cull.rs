//! Viewport culling: laid-out glyphs to pixel-snapped, subpixel-bucketed quads.
use vstd::prelude::*;
use crate::glyph_store::{GlyphBounds, GlyphStore};
use crate::typesetter::GlyphPosition;
use crate::units::{ceil_div, floor_div, floor_div_i128, round_div, scale_units, scale_units_exec, COORD_LIMIT};

verus! {

/// A rectangle in device space, in 1/64 px, with y pointing down.
#[derive(Clone, Copy, Debug)]
pub struct Rect {
    pub x: i64,
    pub y: i64,
    pub width: i64,
    pub height: i64,
}

/// A glyph quad whose origin is snapped: `x` and `y` are whole pixels (the
/// fractional part of the origin's x is carried apart), and the size is the
/// unrounded outline size in 1/64 px.
#[derive(Clone, Copy, Debug)]
pub struct SnappedRect {
    pub x: i64,
    pub y: i64,
    pub width: i64,
    pub height: i64,
}

/// A glyph ready to draw: its snapped quad, the fractional part of its
/// origin's x as a bucket in `0..subpixel_granularity` (bucket `k` stands for
/// `k / subpixel_granularity` px), and its dense index.
#[derive(Clone, Copy, Debug)]
pub struct PositionedGlyph {
    pub bounds: SnappedRect,
    pub subpixel_x: u16,
    pub glyph_index: u16,
}

/// A length in 1/64 px multiplied by a 26.6 fixed-point factor, rounded down.
pub open spec fn scale_by(v: int, scale: int) -> int {
    floor_div(v * scale, 64)
}

/// An outline bound in design units, at `point_size` (1/64 pt) and `scale`,
/// in 1/64 device px.
pub open spec fn device_bound<O>(v: int, store: GlyphStore<O>, point_size: u16, scale: u16) -> int {
    scale_by(scale_units(v, point_size as int, store.units_per_em as int), scale as int)
}

/// The origin's x snapped to the nearest multiple of `1 / granularity` px,
/// counted in those steps.
pub open spec fn snapped_x(p: GlyphPosition, scale: u16, granularity: u16) -> int {
    round_div(scale_by(p.x as int, scale as int) * granularity, 64)
}

/// The quad of a glyph with dense index `index` at position `p`.
pub open spec fn glyph_quad<O>(
    p: GlyphPosition,
    index: u16,
    store: GlyphStore<O>,
    point_size: u16,
    scale: u16,
    granularity: u16,
) -> PositionedGlyph {
    let b = store.glyph_bounds@[index as int];
    let left = device_bound(b.left as int, store, point_size, scale);
    let bottom = device_bound(b.bottom as int, store, point_size, scale);
    let right = device_bound(b.right as int, store, point_size, scale);
    let top = device_bound(b.top as int, store, point_size, scale);
    let q = snapped_x(p, scale, granularity);
    PositionedGlyph {
        bounds: SnappedRect {
            x: floor_div(q, granularity as int) as i64,
            y: (round_div(scale_by(p.y as int, scale as int), 64) - ceil_div(top, 64)) as i64,
            width: (right - left) as i64,
            height: (top - bottom) as i64,
        },
        subpixel_x: (q % (granularity as int)) as u16,
        glyph_index: index,
    }
}

/// The snapped quad overlaps `r`; edges that only touch do not overlap.
pub open spec fn quad_intersects(g: PositionedGlyph, r: Rect, granularity: u16) -> bool {
    let n = granularity as int;
    let left = 64 * (g.bounds.x * n + g.subpixel_x);
    &&& left < n * (r.x + r.width)
    &&& n * r.x < left + n * g.bounds.width
    &&& 64 * g.bounds.y < r.y + r.height
    &&& r.y < 64 * g.bounds.y + g.bounds.height
}

/// The quad of `p` when the store covers its glyph and the quad overlaps `r`.
pub open spec fn visible_quad<O>(
    p: GlyphPosition,
    store: GlyphStore<O>,
    r: Rect,
    point_size: u16,
    scale: u16,
    granularity: u16,
) -> Option<PositionedGlyph> {
    match store.index_of(p.glyph_id) {
        Some(index) => {
            let g = glyph_quad(p, index, store, point_size, scale, granularity);
            if quad_intersects(g, r, granularity) {
                Some(g)
            } else {
                None
            }
        },
        None => None,
    }
}

/// The quads of every glyph in `positions` that the store covers and that
/// overlaps `r`, in order.
pub open spec fn visible_quads<O>(
    positions: Seq<GlyphPosition>,
    store: GlyphStore<O>,
    r: Rect,
    point_size: u16,
    scale: u16,
    granularity: u16,
) -> Seq<PositionedGlyph>
    decreases positions.len(),
{
    if positions.len() == 0 {
        Seq::empty()
    } else {
        let rest = visible_quads(positions.drop_last(), store, r, point_size, scale, granularity);
        match visible_quad(positions.last(), store, r, point_size, scale, granularity) {
            Some(g) => rest.push(g),
            None => rest,
        }
    }
}

proof fn lemma_div_magnitude(a: int, d: int, m: int)
    requires
        d >= 1,
        m >= 0,
        -m * d <= a <= m * d,
    ensures
        -m <= a / d <= m,
{
    assert(-m <= a / d <= m) by (nonlinear_arith)
        requires
            d >= 1,
            m >= 0,
            -m * d <= a <= m * d,
    ;
}

/// `v * scale / 64`, rounded down.
fn scale_by_exec(v: i64, scale: u16) -> (r: i64)
    requires
        -0x1000_0000_0000 <= v <= 0x1000_0000_0000,
    ensures
        r == scale_by(v as int, scale as int),
        -0x40_0000_0000_0000 <= r <= 0x40_0000_0000_0000,
{
    proof {
        assert(-0x1000_0000_0000 * 0x1_0000 <= v * scale <= 0x1000_0000_0000 * 0x1_0000)
            by (nonlinear_arith)
            requires
                -0x1000_0000_0000 <= v <= 0x1000_0000_0000,
                0 <= scale < 0x1_0000,
        ;
        lemma_div_magnitude(v * scale, 64, 0x40_0000_0000_0000);
    }
    floor_div_i128(v as i128 * scale as i128, 64) as i64
}

/// `v / 64` rounded to the nearest integer, halves going up.
fn round_px(v: i64) -> (r: i64)
    requires
        -0x40_0000_0000_0000 <= v <= 0x40_0000_0000_0000,
    ensures
        r == round_div(v as int, 64),
        -0x2_0000_0000_0000 <= r <= 0x2_0000_0000_0000,
{
    proof {
        lemma_div_magnitude(2 * v + 64, 128, 0x2_0000_0000_0000);
    }
    floor_div_i128(2 * (v as i128) + 64, 128) as i64
}

/// `v / 64` rounded up.
fn ceil_px(v: i64) -> (r: i64)
    requires
        -0x40_0000_0000_0000 <= v <= 0x40_0000_0000_0000,
    ensures
        r == ceil_div(v as int, 64),
        -0x2_0000_0000_0000 <= r <= 0x2_0000_0000_0000,
{
    proof {
        lemma_div_magnitude(-v, 64, 0x2_0000_0000_0000);
    }
    -(floor_div_i128(-(v as i128), 64) as i64)
}

/// An outline bound in design units, at the given size and scale, in 1/64
/// device px.
fn device_bound_exec<O>(v: i16, store: &GlyphStore<O>, point_size: u16, scale: u16) -> (r: i64)
    requires
        store.units_per_em > 0,
    ensures
        r == device_bound(v as int, *store, point_size, scale),
        -0x400_0000_0000 <= r <= 0x400_0000_0000,
{
    let s = scale_units_exec(v as i32, point_size, store.units_per_em);
    proof {
        assert(-0x8000_0000 <= v * point_size <= 0x8000_0000) by (nonlinear_arith)
            requires
                -0x8000 <= v < 0x8000,
                0 <= point_size < 0x1_0000,
        ;
        assert(-0x8000_0000 * 0x1_0000 <= s * scale <= 0x8000_0000 * 0x1_0000) by (nonlinear_arith)
            requires
                -0x8000_0000 <= s <= 0x8000_0000,
                0 <= scale < 0x1_0000,
        ;
        lemma_div_magnitude(s * scale, 64, 0x400_0000_0000);
    }
    scale_by_exec(s, scale)
}

/// The position's coordinates, scaled, within `2^50` in magnitude.
proof fn lemma_scaled_coordinate(v: i64, scale: u16)
    requires
        -COORD_LIMIT <= v <= COORD_LIMIT,
    ensures
        -0x4_0000_0000_0000 <= scale_by(v as int, scale as int) <= 0x4_0000_0000_0000,
{
    assert(-0x100_0000_0000 * 0x1_0000 <= v * scale <= 0x100_0000_0000 * 0x1_0000) by (nonlinear_arith)
        requires
            -0x100_0000_0000 <= v <= 0x100_0000_0000,
            0 <= scale < 0x1_0000,
    ;
    lemma_div_magnitude(v * scale, 64, 0x4_0000_0000_0000);
}

/// The quad of one glyph.
fn glyph_quad_exec<O>(
    p: &GlyphPosition,
    index: u16,
    store: &GlyphStore<O>,
    point_size: u16,
    scale: u16,
    granularity: u16,
) -> (r: PositionedGlyph)
    requires
        -COORD_LIMIT <= p.x <= COORD_LIMIT,
        -COORD_LIMIT <= p.y <= COORD_LIMIT,
        store.wf(),
        index < store.glyph_bounds@.len(),
        granularity >= 1,
    ensures
        r == glyph_quad(*p, index, *store, point_size, scale, granularity),
        -0x2000_0000_0000_0000 <= r.bounds.x <= 0x2000_0000_0000_0000,
        -0x2000_0000_0000_0000 <= r.bounds.y <= 0x2000_0000_0000_0000,
        r.subpixel_x < granularity,
{
    let b = store.glyph_bounds[index as usize];
    let left = device_bound_exec(b.left, store, point_size, scale);
    let bottom = device_bound_exec(b.bottom, store, point_size, scale);
    let right = device_bound_exec(b.right, store, point_size, scale);
    let top = device_bound_exec(b.top, store, point_size, scale);
    proof {
        lemma_scaled_coordinate(p.x, scale);
        lemma_scaled_coordinate(p.y, scale);
    }
    let xs = scale_by_exec(p.x, scale);
    let n = granularity as i128;
    proof {
        assert(-0x4_0000_0000_0000 * 0x1_0000 <= xs * n <= 0x4_0000_0000_0000 * 0x1_0000) by (nonlinear_arith)
            requires
                -0x4_0000_0000_0000 <= xs <= 0x4_0000_0000_0000,
                1 <= n < 0x1_0000,
        ;
        lemma_div_magnitude(2 * (xs * n) + 64, 128, 0x2000_0000_0000_0000);
    }
    let q = floor_div_i128(2 * (xs as i128 * n) + 64, 128);
    proof {
        lemma_div_magnitude(q as int, n as int, 0x2000_0000_0000_0000);
        vstd::arithmetic::div_mod::lemma_fundamental_div_mod(q as int, n as int);
        vstd::arithmetic::div_mod::lemma_mod_bound(q as int, n as int);
    }
    let whole = floor_div_i128(q, n);
    proof {
        let qi = q as int;
        let ni = n as int;
        let wi = whole as int;
        assert(wi * ni == ni * (qi / ni)) by (nonlinear_arith)
            requires
                wi == qi / ni,
        ;
        assert(qi - wi * ni == qi % ni);
    }
    let bucket = q - whole * n;
    let ys = scale_by_exec(p.y, scale);
    let y = round_px(ys) - ceil_px(top);
    PositionedGlyph {
        bounds: SnappedRect { x: whole as i64, y, width: right - left, height: top - bottom },
        subpixel_x: bucket as u16,
        glyph_index: index,
    }
}

/// Whether the snapped quad overlaps `r`.
fn quad_intersects_exec(g: &PositionedGlyph, r: &Rect, granularity: u16) -> (b: bool)
    requires
        -0x2000_0000_0000_0000 <= g.bounds.x <= 0x2000_0000_0000_0000,
        -0x2000_0000_0000_0000 <= g.bounds.y <= 0x2000_0000_0000_0000,
        1 <= granularity,
        g.subpixel_x < granularity,
    ensures
        b == quad_intersects(*g, *r, granularity),
{
    let n = granularity as i128;
    proof {
        assert(-0x2000_0000_0000_0000 * 0x1_0000 <= g.bounds.x * n <= 0x2000_0000_0000_0000 * 0x1_0000)
            by (nonlinear_arith)
            requires
                -0x2000_0000_0000_0000 <= g.bounds.x <= 0x2000_0000_0000_0000,
                1 <= n < 0x1_0000,
        ;
        assert(-0x1_0000_0000_0000_0000 * 0x1_0000 <= n * (r.x + r.width) <= 0x1_0000_0000_0000_0000 * 0x1_0000)
            by (nonlinear_arith)
            requires
                -0x1_0000_0000_0000_0000 <= r.x + r.width <= 0x1_0000_0000_0000_0000,
                1 <= n < 0x1_0000,
        ;
        assert(-0x8000_0000_0000_0000 * 0x1_0000 <= n * r.x <= 0x8000_0000_0000_0000 * 0x1_0000)
            by (nonlinear_arith)
            requires
                -0x8000_0000_0000_0000 <= r.x < 0x8000_0000_0000_0000,
                1 <= n < 0x1_0000,
        ;
        assert(-0x8000_0000_0000_0000 * 0x1_0000 <= n * g.bounds.width <= 0x8000_0000_0000_0000 * 0x1_0000)
            by (nonlinear_arith)
            requires
                -0x8000_0000_0000_0000 <= g.bounds.width < 0x8000_0000_0000_0000,
                1 <= n < 0x1_0000,
        ;
    }
    let left: i128 = 64 * (g.bounds.x as i128 * n + g.subpixel_x as i128);
    let top: i128 = 64 * (g.bounds.y as i128);
    left < n * (r.x as i128 + r.width as i128)
        && n * (r.x as i128) < left + n * (g.bounds.width as i128)
        && top < r.y as i128 + r.height as i128
        && (r.y as i128) < top + g.bounds.height as i128
}

/// The quads of the glyphs of `positions` that `store` covers and that
/// overlap `r`, in order; glyphs the store does not cover are skipped.
pub fn visible_glyphs<O>(
    positions: &[GlyphPosition],
    store: &GlyphStore<O>,
    r: &Rect,
    point_size: u16,
    scale: u16,
    granularity: u16,
) -> (out: Vec<PositionedGlyph>)
    requires
        store.wf(),
        granularity >= 1,
        forall|i: int|
            0 <= i < positions@.len() ==> -COORD_LIMIT <= #[trigger] positions@[i].x <= COORD_LIMIT
                && -COORD_LIMIT <= positions@[i].y <= COORD_LIMIT,
    ensures
        out@ == visible_quads(positions@, *store, *r, point_size, scale, granularity),
{
    let mut out: Vec<PositionedGlyph> = Vec::new();
    let mut i: usize = 0;
    while i < positions.len()
        invariant
            0 <= i <= positions@.len(),
            store.wf(),
            granularity >= 1,
            forall|j: int|
                0 <= j < positions@.len() ==> -COORD_LIMIT <= #[trigger] positions@[j].x <= COORD_LIMIT
                    && -COORD_LIMIT <= positions@[j].y <= COORD_LIMIT,
            out@ == visible_quads(positions@.take(i as int), *store, *r, point_size, scale, granularity),
        decreases positions@.len() - i,
    {
        let p = &positions[i];
        proof {
            assert(positions@.take(i + 1).drop_last() == positions@.take(i as int));
            assert(positions@.take(i + 1).last() == positions@[i as int]);
            assert(-COORD_LIMIT <= positions@[i as int].x <= COORD_LIMIT);
        }
        match store.glyph_index(p.glyph_id) {
            Some(index) => {
                let g = glyph_quad_exec(p, index, store, point_size, scale, granularity);
                if quad_intersects_exec(&g, r, granularity) {
                    out.push(g);
                }
            },
            None => {},
        }
        i = i + 1;
    }
    proof {
        assert(positions@.take(i as int) == positions@);
    }
    out
}

/// A rectangle that overlaps none of the glyphs' snapped quads yields no
/// glyph.
pub proof fn lemma_disjoint_rect_yields_nothing<O>(
    positions: Seq<GlyphPosition>,
    store: GlyphStore<O>,
    r: Rect,
    point_size: u16,
    scale: u16,
    granularity: u16,
)
    requires
        forall|i: int|
            0 <= i < positions.len() && (#[trigger] store.index_of(positions[i].glyph_id)) is Some
                ==> !quad_intersects(
                glyph_quad(
                    positions[i],
                    store.index_of(positions[i].glyph_id).unwrap(),
                    store,
                    point_size,
                    scale,
                    granularity,
                ),
                r,
                granularity,
            ),
    ensures
        visible_quads(positions, store, r, point_size, scale, granularity) == Seq::<PositionedGlyph>::empty(),
    decreases positions.len(),
{
    if positions.len() > 0 {
        let rest = positions.drop_last();
        assert forall|i: int|
            0 <= i < rest.len() && (#[trigger] store.index_of(rest[i].glyph_id)) is Some implies !quad_intersects(
            glyph_quad(rest[i], store.index_of(rest[i].glyph_id).unwrap(), store, point_size, scale, granularity),
            r,
            granularity,
        ) by {
            assert(rest[i] == positions[i]);
        }
        lemma_disjoint_rect_yields_nothing(rest, store, r, point_size, scale, granularity);
        assert(positions.last() == positions[positions.len() - 1]);
    }
}

/// Every glyph the query yields overlaps the query rectangle, belongs to the
/// store, and has its subpixel bucket in `0..granularity`.
pub proof fn lemma_visible_quads_in_rect<O>(
    positions: Seq<GlyphPosition>,
    store: GlyphStore<O>,
    r: Rect,
    point_size: u16,
    scale: u16,
    granularity: u16,
)
    requires
        granularity >= 1,
    ensures
        forall|k: int|
            0 <= k < visible_quads(positions, store, r, point_size, scale, granularity).len() ==> {
                let g = #[trigger] visible_quads(positions, store, r, point_size, scale, granularity)[k];
                &&& quad_intersects(g, r, granularity)
                &&& g.subpixel_x < granularity
                &&& exists|i: int| 0 <= i < positions.len() && store.index_of(positions[i].glyph_id) == Some(g.glyph_index)
            },
    decreases positions.len(),
{
    if positions.len() > 0 {
        let rest = positions.drop_last();
        lemma_visible_quads_in_rect(rest, store, r, point_size, scale, granularity);
        let all = visible_quads(positions, store, r, point_size, scale, granularity);
        let prev = visible_quads(rest, store, r, point_size, scale, granularity);
        assert forall|k: int| 0 <= k < all.len() implies {
            let g = #[trigger] all[k];
            &&& quad_intersects(g, r, granularity)
            &&& g.subpixel_x < granularity
            &&& exists|i: int| 0 <= i < positions.len() && store.index_of(positions[i].glyph_id) == Some(g.glyph_index)
        } by {
            if k < prev.len() {
                assert(all[k] == prev[k]);
                let g = prev[k];
                let i = choose|i: int| 0 <= i < rest.len() && store.index_of(rest[i].glyph_id) == Some(g.glyph_index);
                assert(rest[i] == positions[i]);
            } else {
                let p = positions.last();
                let index = store.index_of(p.glyph_id).unwrap();
                let q = snapped_x(p, scale, granularity);
                vstd::arithmetic::div_mod::lemma_mod_bound(q, granularity as int);
                assert(positions[positions.len() - 1] == p);
            }
        }
    }
}

} // verus!
