//! Bitmap cache keyed by glyph id and the exact bit pattern of the size.
//!
//! Backed by an open-addressing [`FastMap`] for O(1) lookups and bounded
//! to [`MAX_ENTRIES`]: when full it is flushed wholesale (no LRU).

use vstd::prelude::*;
use crate::fastmap::{FastMap, EMPTY};
use crate::render::Metrics;

verus! {

/// Number of bitmaps held before the cache is flushed.
pub const MAX_ENTRIES: usize = 4096;

/// The map key of glyph `id` rendered at the size whose `f32` bit pattern
/// is `size_bits`.
pub open spec fn cache_key(id: u32, size_bits: u32) -> u64 {
    (id as int * 0x1_0000_0000 + size_bits as int) as u64
}

fn key(id: u32, size_bits: u32) -> (r: u64)
    ensures
        r == cache_key(id, size_bits),
{
    (id as u64) * 0x1_0000_0000 + (size_bits as u64)
}

/// The cache contents `c` after caching `entry` for glyph `id` at size
/// bits `size_bits`: a full cache is emptied first; the reserved key is
/// never stored.
pub open spec fn cache_after_set(
    c: Map<u64, (Metrics, Vec<u8>)>,
    id: u32,
    size_bits: u32,
    entry: (Metrics, Vec<u8>),
) -> Map<u64, (Metrics, Vec<u8>)> {
    if cache_key(id, size_bits) == EMPTY {
        c
    } else {
        (if c.dom().len() >= MAX_ENTRIES {
            Map::empty()
        } else {
            c
        }).insert(cache_key(id, size_bits), entry)
    }
}

/// Cache of rendered bitmaps.
pub struct Cache(FastMap<(Metrics, Vec<u8>)>);

impl View for Cache {
    type V = Map<u64, (Metrics, Vec<u8>)>;

    closed spec fn view(&self) -> Map<u64, (Metrics, Vec<u8>)> {
        self.0@
    }
}

impl Cache {
    /// The cache's internal invariant.
    pub closed spec fn wf(&self) -> bool {
        &&& self.0.wf()
        &&& self@.dom().len() <= MAX_ENTRIES
    }

    /// A well-formed cache holds finitely many, at most [`MAX_ENTRIES`], bitmaps.
    pub proof fn lemma_finite(&self)
        requires
            self.wf(),
        ensures
            self@.dom().finite(),
            self@.dom().len() <= MAX_ENTRIES,
    {
        self.0.lemma_finite();
    }

    /// An empty cache.
    pub fn new() -> (r: Self)
        ensures
            r.wf(),
            r@ == Map::<u64, (Metrics, Vec<u8>)>::empty(),
    {
        Cache(FastMap::new())
    }

    /// Drops every cached bitmap.
    pub fn flush(&mut self)
        requires
            old(self).wf(),
        ensures
            final(self).wf(),
            final(self)@ == Map::<u64, (Metrics, Vec<u8>)>::empty(),
    {
        self.0.clear();
    }

    /// Number of cached bitmaps.
    pub fn len(&self) -> (r: usize)
        requires
            self.wf(),
        ensures
            r == self@.dom().len(),
    {
        self.0.len()
    }

    /// Whether the cache holds no bitmap.
    pub fn is_empty(&self) -> (r: bool)
        requires
            self.wf(),
        ensures
            r == (self@.dom().len() == 0),
    {
        self.0.len() == 0
    }

    /// The bitmap cached for glyph `id` at the size with bit pattern `size_bits`.
    pub fn get(&self, id: u32, size_bits: u32) -> (r: Option<&(Metrics, Vec<u8>)>)
        requires
            self.wf(),
        ensures
            match r {
                Some(e) => self@.contains_key(cache_key(id, size_bits)) && *e == self@[cache_key(
                    id,
                    size_bits,
                )],
                None => !self@.contains_key(cache_key(id, size_bits)),
            },
    {
        self.0.get(key(id, size_bits))
    }

    /// Caches a bitmap. A full cache is flushed first. The one key that
    /// collides with the map's empty-slot sentinel (`id == u32::MAX` with a
    /// NaN size of bit pattern `u32::MAX`) is never cached.
    pub fn set(&mut self, id: u32, size_bits: u32, metrics: Metrics, data: Vec<u8>)
        requires
            old(self).wf(),
        ensures
            final(self).wf(),
            final(self)@ == cache_after_set(old(self)@, id, size_bits, (metrics, data)),
    {
        let k = key(id, size_bits);
        if k == EMPTY {
            return;
        }
        if self.0.len() >= MAX_ENTRIES {
            self.0.clear();
        }
        let ghost before = self@;
        proof {
            self.0.lemma_finite();
        }
        self.0.insert(k, (metrics, data));
        proof {
            if !before.contains_key(k) {
                assert(self@.dom() =~= before.dom().insert(k));
            } else {
                assert(self@.dom() =~= before.dom());
            }
        }
    }
}

impl Default for Cache {
    /// An empty cache.
    fn default() -> (r: Self)
        ensures
            r.wf(),
            r@ == Map::<u64, (Metrics, Vec<u8>)>::empty(),
    {
        Cache::new()
    }
}

} // verus!
