//! Dense remapping of the glyph identifiers a document uses.
use vstd::prelude::*;
use crate::codepoints::{CodepointRange, CodepointRanges};
use crate::error::{FontError, GlError, GlyphStoreCreationError};

verus! {

/// Marks an identifier with no dense index.
pub const ABSENT: u16 = 0xffff;

/// Bounds of a glyph outline, in font design units, with y pointing up.
#[derive(Clone, Copy, Debug)]
pub struct GlyphBounds {
    pub left: i16,
    pub bottom: i16,
    pub right: i16,
    pub top: i16,
}

/// Decodes glyph outlines of one font into a batch for the GPU. The n-th
/// glyph added to a batch has dense index n.
pub trait OutlineBuilder {
    /// GPU buffers holding a finished batch.
    type Outlines;

    /// The font's design units per em.
    fn units_per_em(&self) -> u16;

    /// Decodes the outline of `glyph_id`, adds it to the batch and returns its
    /// bounds.
    fn add_glyph(&mut self, glyph_id: u16) -> Result<GlyphBounds, FontError>;

    /// Turns the glyphs added so far into GPU buffers.
    fn create_buffers(&mut self) -> Result<Self::Outlines, GlError>;
}

/// The character map of a font.
pub trait GlyphMapping {
    /// The glyph identifiers of the characters in `ranges`.
    fn glyph_ids_for_codepoint_ranges(&self, ranges: &Vec<CodepointRange>) -> Result<Vec<u16>, FontError>;
}

/// The outlines of a set of glyphs, with a remapping from each glyph's font
/// identifier to its dense index in the batch.
#[derive(Clone, Debug)]
pub struct GlyphStore<O> {
    /// The outline batch, ready for the GPU.
    pub outlines: O,
    /// Bounds of each glyph, by dense index.
    pub glyph_bounds: Vec<GlyphBounds>,
    pub units_per_em: u16,
    /// The dense index of each identifier, or `ABSENT`.
    pub glyph_id_to_glyph_index: Vec<u16>,
    /// Every dense index, ascending.
    pub all_glyph_indices: Vec<u16>,
}

/// The length of the lookup array for `ids`: one past the largest
/// identifier, or zero when there is none.
pub open spec fn is_lookup_len(ids: Seq<u16>, len: int) -> bool {
    &&& forall|id: u16| ids.contains(id) ==> id < len
    &&& len == 0 || (len <= 0x1_0000 && ids.contains((len - 1) as u16))
}

/// The identifiers strictly ascend.
pub open spec fn strictly_ascending(ids: Seq<u16>) -> bool {
    forall|i: int, j: int| 0 <= i < j < ids.len() ==> ids[i] < ids[j]
}

/// A strictly ascending list holding every identifier has 65536 entries.
proof fn lemma_all_identifiers(ids: Seq<u16>)
    requires
        strictly_ascending(ids),
        forall|id: u16| ids.contains(id),
    ensures
        ids.len() == 0x1_0000,
{
    assert forall|k: int| 0 <= k < ids.len() implies #[trigger] ids[k] >= k by {
        lemma_ascending_at_least_index(ids, k);
    }
    assert(ids.contains(0xffff));
    let t = choose|t: int| 0 <= t < ids.len() && ids[t] == 0xffff;
    if t < ids.len() - 1 {
        assert(ids[t] < ids[t + 1]);
    }
    assert(ids.contains(0));
    lemma_ascending_at_most(ids, ids.len() - 1);
}

proof fn lemma_ascending_at_least_index(ids: Seq<u16>, k: int)
    requires
        strictly_ascending(ids),
        0 <= k < ids.len(),
    ensures
        ids[k] >= k,
    decreases k,
{
    if k > 0 {
        lemma_ascending_at_least_index(ids, k - 1);
    }
}

/// Every identifier up to `ids[k]` is in the first `k + 1` entries when all
/// identifiers are present.
proof fn lemma_ascending_at_most(ids: Seq<u16>, k: int)
    requires
        strictly_ascending(ids),
        forall|id: u16| ids.contains(id),
        0 <= k < ids.len(),
    ensures
        ids[k] <= k,
    decreases k,
{
    if k == 0 {
        if ids[0] > 0 {
            assert(ids.contains(0));
            let t = choose|t: int| 0 <= t < ids.len() && ids[t] == 0;
            assert(ids[0] <= ids[t] || t == 0);
        }
    } else {
        lemma_ascending_at_most(ids, k - 1);
        if ids[k] > ids[k - 1] + 1 {
            let v = (ids[k - 1] + 1) as u16;
            assert(ids.contains(v));
            let t = choose|t: int| 0 <= t < ids.len() && ids[t] == v;
            if t < k {
                assert(ids[t] <= ids[k - 1]) by {
                    if t < k - 1 {
                        assert(ids[t] < ids[k - 1]);
                    }
                }
            } else if t > k {
                assert(ids[k] < ids[t]);
            }
        }
    }
}

/// The distinct identifiers of `ids`, ascending.
pub fn distinct_ascending(ids: &Vec<u16>) -> (r: Vec<u16>)
    ensures
        strictly_ascending(r@),
        forall|id: u16| r@.contains(id) <==> ids@.contains(id),
{
    let mut len: usize = 0;
    let mut i: usize = 0;
    while i < ids.len()
        invariant
            0 <= i <= ids.len(),
            len <= 0x1_0000,
            forall|t: int| 0 <= t < i ==> (#[trigger] ids@[t]) < len,
        decreases ids.len() - i,
    {
        if ids[i] as usize >= len {
            len = ids[i] as usize + 1;
        }
        i = i + 1;
    }
    let mut present: Vec<bool> = Vec::new();
    while present.len() < len
        invariant
            present.len() <= len,
            forall|t: int| 0 <= t < present.len() ==> !(#[trigger] present@[t]),
        decreases len - present.len(),
    {
        present.push(false);
    }
    i = 0;
    while i < ids.len()
        invariant
            0 <= i <= ids.len(),
            present.len() == len,
            forall|t: int| 0 <= t < ids.len() ==> (#[trigger] ids@[t]) < len,
            forall|id: int|
                0 <= id < len ==> (#[trigger] present@[id] <==> exists|t: int| 0 <= t < i && ids@[t] == id),
        decreases ids.len() - i,
    {
        let id = ids[i] as usize;
        present[id] = true;
        i = i + 1;
        proof {
            assert forall|x: int| 0 <= x < len implies (#[trigger] present@[x] <==> exists|t: int|
                0 <= t < i && ids@[t] == x) by {
                if x == id {
                    assert(ids@[i - 1] == x);
                }
                if present@[x] && x != id {
                    let t = choose|t: int| 0 <= t < i - 1 && ids@[t] == x;
                    assert(0 <= t < i && ids@[t] == x);
                }
            }
        }
    }
    let mut r: Vec<u16> = Vec::new();
    let mut j: usize = 0;
    while j < len
        invariant
            0 <= j <= len,
            len <= 0x1_0000,
            present.len() == len,
            strictly_ascending(r@),
            forall|t: int| 0 <= t < r.len() ==> (#[trigger] r@[t]) < j,
            forall|x: u16| (x < j && present@[x as int]) <==> r@.contains(x),
        decreases len - j,
    {
        if present[j] {
            let ghost old_r = r@;
            r.push(j as u16);
            proof {
                assert forall|x: u16| (x < j + 1 && present@[x as int]) <==> r@.contains(x) by {
                    if x == j {
                        assert(r@[r.len() - 1] == x);
                    } else if r@.contains(x) {
                        let t = choose|t: int| 0 <= t < r.len() && r@[t] == x;
                        assert(old_r[t] == x);
                    } else if x < j && present@[x as int] {
                        assert(old_r.contains(x));
                        let t = choose|t: int| 0 <= t < old_r.len() && old_r[t] == x;
                        assert(r@[t] == x);
                    }
                }
            }
        }
        j = j + 1;
    }
    proof {
        assert forall|id: u16| r@.contains(id) <==> ids@.contains(id) by {
            if ids@.contains(id) {
                let t = choose|t: int| 0 <= t < ids.len() && ids@[t] == id;
                assert(ids@[t] < len);
            }
            if r@.contains(id) {
                let t = choose|t: int| 0 <= t < r.len() && r@[t] == id;
                assert(id < len);
            }
        }
    }
    r
}

impl<O> GlyphStore<O> {
    /// The dense index of `glyph_id`, if the store covers it.
    pub open spec fn index_of(self, glyph_id: u16) -> Option<u16> {
        if (glyph_id as int) < self.glyph_id_to_glyph_index@.len()
            && self.glyph_id_to_glyph_index@[glyph_id as int] != ABSENT {
            Some(self.glyph_id_to_glyph_index@[glyph_id as int])
        } else {
            None
        }
    }

    /// Some identifier has dense index `k`.
    pub open spec fn is_assigned(self, k: int) -> bool {
        exists|j: int| 0 <= j < self.glyph_id_to_glyph_index@.len() && #[trigger] self.glyph_id_to_glyph_index@[j] == k
    }

    /// Identifiers get dense indices `0..n` in ascending order, one each,
    /// where `n` is the number of outlines.
    pub open spec fn wf(self) -> bool {
        let m = self.glyph_id_to_glyph_index@;
        let n = self.glyph_bounds@.len();
        &&& self.units_per_em > 0
        &&& m.len() <= 0x1_0000
        &&& n <= 0xffff
        &&& forall|j: int| 0 <= j < m.len() ==> #[trigger] m[j] == ABSENT || m[j] < n
        &&& forall|j1: int, j2: int|
            0 <= j1 < j2 < m.len() && #[trigger] m[j1] != ABSENT && #[trigger] m[j2] != ABSENT ==> m[j1] < m[j2]
        &&& forall|k: int| 0 <= k < n ==> #[trigger] self.is_assigned(k)
        &&& self.all_glyph_indices@ == Seq::new(n, |k: int| k as u16)
    }

    /// The store covers exactly the identifiers in `ids`.
    pub open spec fn covers_exactly(self, ids: Seq<u16>) -> bool {
        forall|id: u16| (#[trigger] self.index_of(id) is Some) <==> ids.contains(id)
    }

    /// The store for the strictly ascending identifiers `ids` whose outlines
    /// have bounds `bounds`: `ids[k]` gets dense index `k`.
    pub fn assemble_store(ids: &Vec<u16>, bounds: Vec<GlyphBounds>, units_per_em: u16, outlines: O) -> (r: GlyphStore<O>)
        requires
            strictly_ascending(ids@),
            bounds@.len() == ids@.len(),
            ids@.len() <= 0xffff,
            units_per_em > 0,
        ensures
            r.wf(),
            r.covers_exactly(ids@),
            r.glyph_bounds@ == bounds@,
            r.units_per_em == units_per_em,
            r.outlines == outlines,
            forall|k: int| 0 <= k < ids@.len() ==> r.glyph_id_to_glyph_index@[#[trigger] ids@[k] as int] == k,
            r.glyph_id_to_glyph_index@.len() == if ids@.len() == 0 { 0 } else { ids@.last() + 1 },
    {
        let n = ids.len();
        let len: usize = if n == 0 { 0 } else { ids[n - 1] as usize + 1 };
        proof {
            assert forall|k: int| 0 <= k < n implies (#[trigger] ids@[k]) < len by {
                if k < n - 1 {
                    assert(ids@[k] < ids@[n - 1]);
                }
            }
        }
        let mut map: Vec<u16> = Vec::new();
        while map.len() < len
            invariant
                map.len() <= len,
                forall|j: int| 0 <= j < map.len() ==> #[trigger] map@[j] == ABSENT,
            decreases len - map.len(),
        {
            map.push(ABSENT);
        }
        let mut all_glyph_indices: Vec<u16> = Vec::new();
        let mut k: usize = 0;
        while k < n
            invariant
                n == ids@.len(),
                n <= 0xffff,
                strictly_ascending(ids@),
                forall|t: int| 0 <= t < n ==> (#[trigger] ids@[t]) < len,
                map.len() == len,
                0 <= k <= n,
                forall|j: int|
                    0 <= j < len ==> #[trigger] map@[j] == ABSENT || (map@[j] < k && ids@[map@[j] as int] == j),
                forall|t: int| 0 <= t < k ==> map@[#[trigger] ids@[t] as int] == t,
                all_glyph_indices@ == Seq::new(k as nat, |t: int| t as u16),
            decreases n - k,
        {
            let id = ids[k] as usize;
            map[id] = k as u16;
            all_glyph_indices.push(k as u16);
            k = k + 1;
            proof {
                assert forall|t: int| 0 <= t < k implies map@[#[trigger] ids@[t] as int] == t by {
                    if t < k - 1 {
                        assert(ids@[t] != ids@[k - 1]);
                    }
                }
                assert(all_glyph_indices@ == Seq::new(k as nat, |t: int| t as u16));
            }
        }
        let r = GlyphStore { outlines, glyph_bounds: bounds, units_per_em, glyph_id_to_glyph_index: map, all_glyph_indices };
        proof {
            let m = r.glyph_id_to_glyph_index@;
            assert forall|j1: int, j2: int|
                0 <= j1 < j2 < m.len() && #[trigger] m[j1] != ABSENT && #[trigger] m[j2] != ABSENT implies m[j1] < m[j2] by {
                if m[j1] >= m[j2] {
                    if m[j1] > m[j2] {
                        assert(ids@[m[j2] as int] < ids@[m[j1] as int]);
                    }
                }
            }
            assert forall|t: int| 0 <= t < n implies #[trigger] r.is_assigned(t) by {
                assert(m[ids@[t] as int] == t);
            }
            assert forall|id: u16| (#[trigger] r.index_of(id) is Some) <==> ids@.contains(id) by {
                if r.index_of(id) is Some {
                    assert(ids@[m[id as int] as int] == id);
                }
                if ids@.contains(id) {
                    let t = choose|t: int| 0 <= t < n && ids@[t] == id;
                    assert(m[ids@[t] as int] == t);
                }
            }
        }
        r
    }

    /// Builds a store for the distinct identifiers of `glyph_ids`: the
    /// builder receives each of them once, in ascending order, so dense
    /// indices follow identifier order, and the first failure ends
    /// construction before the buffers are made. A set of all 65536
    /// identifiers cannot be indexed beside the `ABSENT` marker, and a
    /// builder reporting zero units per em is a malformed font: both are
    /// font errors.
    pub fn from_glyph_ids<B: OutlineBuilder<Outlines = O>>(glyph_ids: Vec<u16>, builder: &mut B) -> (r: Result<GlyphStore<O>, GlyphStoreCreationError>)
        ensures
            (forall|id: u16| glyph_ids@.contains(id)) ==> r == Err::<GlyphStore<O>, GlyphStoreCreationError>(
                GlyphStoreCreationError::FontError(FontError::GlyphNotFound),
            ),
            r matches Ok(store) ==> {
                &&& store.wf()
                &&& store.covers_exactly(glyph_ids@)
                &&& is_lookup_len(glyph_ids@, store.glyph_id_to_glyph_index@.len() as int)
            },
    {
        let ids = distinct_ascending(&glyph_ids);
        if ids.len() > 0xffff {
            return Err(GlyphStoreCreationError::FontError(FontError::GlyphNotFound));
        }
        proof {
            if forall|id: u16| glyph_ids@.contains(id) {
                lemma_all_identifiers(ids@);
            }
        }
        let units_per_em = builder.units_per_em();
        if units_per_em == 0 {
            return Err(GlyphStoreCreationError::FontError(FontError::Malformed));
        }
        let mut bounds: Vec<GlyphBounds> = Vec::new();
        let mut k: usize = 0;
        while k < ids.len()
            invariant
                0 <= k <= ids.len(),
                bounds.len() == k,
                !(forall|id: u16| glyph_ids@.contains(id)),
            decreases ids.len() - k,
        {
            match builder.add_glyph(ids[k]) {
                Ok(b) => bounds.push(b),
                Err(e) => {
                    return Err(GlyphStoreCreationError::FontError(e));
                },
            }
            k = k + 1;
        }
        let outlines = match builder.create_buffers() {
            Ok(o) => o,
            Err(e) => {
                return Err(GlyphStoreCreationError::GlError(e));
            },
        };
        let store = GlyphStore::assemble_store(&ids, bounds, units_per_em, outlines);
        proof {
            let n = ids@.len();
            assert forall|id: u16| glyph_ids@.contains(id) implies id < store.glyph_id_to_glyph_index@.len() by {
                assert(ids@.contains(id));
                let t = choose|t: int| 0 <= t < n && ids@[t] == id;
                if t < n - 1 {
                    assert(ids@[t] < ids@[n - 1]);
                }
            }
            if n > 0 {
                assert(ids@.contains(ids@[n - 1]));
            }
        }
        Ok(store)
    }

    /// Builds a store for the glyphs that `font` maps the characters of
    /// `codepoints` to.
    pub fn from_codepoints<F: GlyphMapping, B: OutlineBuilder<Outlines = O>>(
        codepoints: &CodepointRanges,
        font: &F,
        builder: &mut B,
    ) -> (r: Result<GlyphStore<O>, GlyphStoreCreationError>)
        ensures
            r matches Ok(store) ==> store.wf() && exists|ids: Seq<u16>|
                #[trigger] store.covers_exactly(ids) && is_lookup_len(
                    ids,
                    store.glyph_id_to_glyph_index@.len() as int,
                ),
    {
        match font.glyph_ids_for_codepoint_ranges(&codepoints.ranges) {
            Ok(glyph_ids) => GlyphStore::from_glyph_ids(glyph_ids, builder),
            Err(e) => Err(GlyphStoreCreationError::FontError(e)),
        }
    }

    /// Looks up the dense index of `glyph_id`.
    pub fn glyph_index(&self, glyph_id: u16) -> (r: Option<u16>)
        ensures
            r == self.index_of(glyph_id),
    {
        if (glyph_id as usize) < self.glyph_id_to_glyph_index.len() {
            let index = self.glyph_id_to_glyph_index[glyph_id as usize];
            if index == ABSENT {
                None
            } else {
                Some(index)
            }
        } else {
            None
        }
    }
}

/// In a well-formed store distinct identifiers have distinct dense indices,
/// and the list of all dense indices is the ascending, duplicate-free image of
/// the covered identifiers.
pub proof fn lemma_glyph_index_injective<O>(store: GlyphStore<O>)
    requires
        store.wf(),
    ensures
        forall|a: u16, b: u16|
            a != b && #[trigger] store.index_of(a) is Some && #[trigger] store.index_of(b) is Some
                ==> store.index_of(a) != store.index_of(b),
        forall|k1: int, k2: int|
            0 <= k1 < k2 < store.all_glyph_indices@.len() ==> #[trigger] store.all_glyph_indices@[k1]
                < #[trigger] store.all_glyph_indices@[k2],
        forall|k: int|
            0 <= k < store.all_glyph_indices@.len() ==> exists|id: u16|
                store.index_of(id) == Some(#[trigger] store.all_glyph_indices@[k]),
        forall|id: u16|
            #[trigger] store.index_of(id) is Some ==> store.all_glyph_indices@.contains(
                store.index_of(id).unwrap(),
            ),
{
    let m = store.glyph_id_to_glyph_index@;
    assert forall|a: u16, b: u16|
        a != b && #[trigger] store.index_of(a) is Some && #[trigger] store.index_of(b) is Some implies store.index_of(a)
            != store.index_of(b) by {
        if a < b {
            assert(m[a as int] < m[b as int]);
        } else {
            assert(m[b as int] < m[a as int]);
        }
    }
    assert forall|k: int| 0 <= k < store.all_glyph_indices@.len() implies exists|id: u16|
        store.index_of(id) == Some(#[trigger] store.all_glyph_indices@[k]) by {
        assert(store.is_assigned(k));
        let j = choose|j: int| 0 <= j < m.len() && #[trigger] m[j] == k;
        assert(store.index_of(j as u16) == Some(store.all_glyph_indices@[k]));
    }
    assert forall|id: u16| #[trigger] store.index_of(id) is Some implies store.all_glyph_indices@.contains(
        store.index_of(id).unwrap(),
    ) by {
        let k = m[id as int] as int;
        assert(store.all_glyph_indices@[k] == store.index_of(id).unwrap());
    }
}

/// The number of entries of `m` before `j` that hold a dense index.
pub open spec fn present_count(m: Seq<u16>, j: int) -> int
    decreases j,
{
    if j <= 0 {
        0
    } else {
        present_count(m, j - 1) + if m[j - 1] != ABSENT { 1int } else { 0 }
    }
}

proof fn lemma_present_count_monotone(m: Seq<u16>, i: int, j: int)
    requires
        0 <= i <= j,
    ensures
        present_count(m, i) <= present_count(m, j),
    decreases j - i,
{
    if i < j {
        lemma_present_count_monotone(m, i, j - 1);
    }
}

proof fn lemma_index_at_least_count<O>(store: GlyphStore<O>, j: int)
    requires
        store.wf(),
        0 <= j <= store.glyph_id_to_glyph_index@.len(),
    ensures
        forall|t: int|
            j <= t < store.glyph_id_to_glyph_index@.len() && #[trigger] store.glyph_id_to_glyph_index@[t] != ABSENT
                ==> store.glyph_id_to_glyph_index@[t] >= present_count(store.glyph_id_to_glyph_index@, j),
    decreases j,
{
    let m = store.glyph_id_to_glyph_index@;
    if j > 0 {
        lemma_index_at_least_count(store, j - 1);
        assert forall|t: int| j <= t < m.len() && #[trigger] m[t] != ABSENT implies m[t] >= present_count(m, j) by {
            if m[j - 1] != ABSENT {
                assert(m[j - 1] < m[t]);
            }
        }
    }
}

proof fn lemma_index_at_most_count<O>(store: GlyphStore<O>, j: int)
    requires
        store.wf(),
        0 <= j < store.glyph_id_to_glyph_index@.len(),
        store.glyph_id_to_glyph_index@[j] != ABSENT,
    ensures
        store.glyph_id_to_glyph_index@[j] <= present_count(store.glyph_id_to_glyph_index@, j),
    decreases store.glyph_id_to_glyph_index@[j],
{
    let m = store.glyph_id_to_glyph_index@;
    let v = m[j] as int;
    lemma_present_count_monotone(m, 0, j);
    if v > 0 {
        assert(store.is_assigned(v - 1));
        let i = choose|i: int| 0 <= i < m.len() && #[trigger] m[i] == v - 1;
        if i >= j {
            assert(i != j);
            assert(m[j] < m[i]);
        }
        lemma_index_at_most_count(store, i);
        assert(present_count(m, i + 1) == present_count(m, i) + 1);
        lemma_present_count_monotone(m, i + 1, j);
    }
}

/// In a well-formed store an identifier's dense index is the number of
/// covered identifiers below it, and the number of outlines is the number of
/// covered identifiers.
pub proof fn lemma_index_is_rank<O>(store: GlyphStore<O>)
    requires
        store.wf(),
    ensures
        forall|j: int|
            0 <= j < store.glyph_id_to_glyph_index@.len() && #[trigger] store.glyph_id_to_glyph_index@[j] != ABSENT
                ==> store.glyph_id_to_glyph_index@[j] == present_count(store.glyph_id_to_glyph_index@, j),
        store.glyph_bounds@.len() == present_count(
            store.glyph_id_to_glyph_index@,
            store.glyph_id_to_glyph_index@.len() as int,
        ),
{
    let m = store.glyph_id_to_glyph_index@;
    let n = store.glyph_bounds@.len() as int;
    assert forall|j: int| 0 <= j < m.len() && #[trigger] m[j] != ABSENT implies m[j] == present_count(m, j) by {
        lemma_index_at_least_count(store, j);
        lemma_index_at_most_count(store, j);
    }
    lemma_count_at_most(store, m.len() as int);
    lemma_present_count_monotone(m, 0, m.len() as int);
    if n > 0 {
        assert(store.is_assigned(n - 1));
        let i = choose|i: int| 0 <= i < m.len() && #[trigger] m[i] == n - 1;
        lemma_index_at_most_count(store, i);
        assert(present_count(m, i + 1) == present_count(m, i) + 1);
        lemma_present_count_monotone(m, i + 1, m.len() as int);
    }
}

proof fn lemma_count_at_most<O>(store: GlyphStore<O>, j: int)
    requires
        store.wf(),
        0 <= j <= store.glyph_id_to_glyph_index@.len(),
    ensures
        present_count(store.glyph_id_to_glyph_index@, j) <= store.glyph_bounds@.len(),
    decreases j,
{
    let m = store.glyph_id_to_glyph_index@;
    if j > 0 {
        lemma_count_at_most(store, j - 1);
        if m[j - 1] != ABSENT {
            lemma_index_at_least_count(store, j - 1);
            lemma_index_at_most_count(store, j - 1);
        }
    }
}

/// Two well-formed stores that cover the same identifiers, each with a lookup
/// array one past its largest identifier, have the same lookup array and the
/// same list of dense indices: construction depends only on the set of
/// identifiers.
pub proof fn lemma_store_determined_by_ids<O, P>(a: GlyphStore<O>, b: GlyphStore<P>, ids: Seq<u16>)
    requires
        a.wf(),
        b.wf(),
        a.covers_exactly(ids),
        b.covers_exactly(ids),
        is_lookup_len(ids, a.glyph_id_to_glyph_index@.len() as int),
        is_lookup_len(ids, b.glyph_id_to_glyph_index@.len() as int),
    ensures
        a.glyph_id_to_glyph_index@ == b.glyph_id_to_glyph_index@,
        a.all_glyph_indices@ == b.all_glyph_indices@,
{
    let ma = a.glyph_id_to_glyph_index@;
    let mb = b.glyph_id_to_glyph_index@;
    if ma.len() < mb.len() {
        assert(ids.contains((mb.len() - 1) as u16));
    }
    if mb.len() < ma.len() {
        assert(ids.contains((ma.len() - 1) as u16));
    }
    assert(ma.len() == mb.len());
    assert forall|j: int| 0 <= j < ma.len() implies (ma[j] != ABSENT) == (mb[j] != ABSENT) by {
        assert(a.index_of(j as u16) is Some <==> ids.contains(j as u16));
        assert(b.index_of(j as u16) is Some <==> ids.contains(j as u16));
    }
    assert forall|j: int| 0 <= j <= ma.len() implies present_count(ma, j) == present_count(mb, j) by {
        lemma_counts_agree(ma, mb, j);
    }
    lemma_index_is_rank(a);
    lemma_index_is_rank(b);
    assert forall|j: int| 0 <= j < ma.len() implies ma[j] == mb[j] by {
        if ma[j] != ABSENT {
            assert(ma[j] == present_count(ma, j));
            assert(mb[j] == present_count(mb, j));
        }
    }
    assert(ma =~= mb);
    assert(a.all_glyph_indices@ =~= b.all_glyph_indices@);
}

proof fn lemma_counts_agree(ma: Seq<u16>, mb: Seq<u16>, j: int)
    requires
        ma.len() == mb.len(),
        0 <= j <= ma.len(),
        forall|i: int| 0 <= i < ma.len() ==> (ma[i] != ABSENT) == (mb[i] != ABSENT),
    ensures
        present_count(ma, j) == present_count(mb, j),
    decreases j,
{
    if j > 0 {
        lemma_counts_agree(ma, mb, j - 1);
    }
}

} // verus!
