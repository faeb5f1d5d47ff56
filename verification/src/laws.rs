//! Properties of the library as a whole, stated over the models that the
//! functions' contracts use.

use vstd::prelude::*;
use crate::cache::{MAX_ENTRIES, cache_key, cache_after_set};
use crate::fastmap::EMPTY;
use crate::font::TrueTypeFont;
use crate::glyph_index::{
    keep0, keep4, keep6, keep12, map0, map6, fold4, fold12, group_gid, subtable_index,
};
use crate::load::{loaded_font, num_glyphs_of};
use crate::render::Metrics;
use crate::tables::cmap::{
    CmapFormat4, CmapFormat12, SequentialMapGroup, SupportedCmapFormats, format4_glyph, spec_lookup, subtable_wf,
    group_ends, group_glyph, is_boundary32, search32, lemma_search32,
};
use crate::tables::otl::{search_pos, is_boundary, lemma_search_pos, sorted_u16};
use crate::tables::gpos::pair_key;
use crate::tables::kern::{glyph_of, spec_kerning};

verus! {

/// Caching a bitmap and then asking for the same glyph and size gives that
/// bitmap back.
pub proof fn law_cache_read_after_write(
    c: Map<u64, (Metrics, Vec<u8>)>,
    id: u32,
    size_bits: u32,
    entry: (Metrics, Vec<u8>),
)
    requires
        cache_key(id, size_bits) != EMPTY,
    ensures
        cache_after_set(c, id, size_bits, entry).contains_key(cache_key(id, size_bits)),
        cache_after_set(c, id, size_bits, entry)[cache_key(id, size_bits)] == entry,
{
}

/// Caching a bitmap leaves every other cached bitmap in place, unless the
/// cache was full and has been flushed.
pub proof fn law_cache_keeps_others(
    c: Map<u64, (Metrics, Vec<u8>)>,
    id: u32,
    size_bits: u32,
    entry: (Metrics, Vec<u8>),
    id2: u32,
    size_bits2: u32,
)
    requires
        c.dom().len() < MAX_ENTRIES,
        cache_key(id2, size_bits2) != cache_key(id, size_bits),
    ensures
        cache_after_set(c, id, size_bits, entry).contains_key(cache_key(id2, size_bits2)) == c.contains_key(
            cache_key(id2, size_bits2),
        ),
        c.contains_key(cache_key(id2, size_bits2)) ==> cache_after_set(c, id, size_bits, entry)[cache_key(
            id2,
            size_bits2,
        )] == c[cache_key(id2, size_bits2)],
{
}

/// The cache never holds more than [`MAX_ENTRIES`] bitmaps.
pub proof fn law_cache_bounded(c: Map<u64, (Metrics, Vec<u8>)>, id: u32, size_bits: u32, entry: (Metrics, Vec<u8>))
    requires
        c.dom().finite(),
        c.dom().len() <= MAX_ENTRIES,
    ensures
        cache_after_set(c, id, size_bits, entry).dom().finite(),
        cache_after_set(c, id, size_bits, entry).dom().len() <= MAX_ENTRIES,
{
    let k = cache_key(id, size_bits);
    if k != EMPTY {
        if c.dom().len() >= MAX_ENTRIES {
            assert(Map::<u64, (Metrics, Vec<u8>)>::empty().insert(k, entry).dom() =~= set![k]);
        } else if c.contains_key(k) {
            assert(c.insert(k, entry).dom() =~= c.dom());
        }
    }
}

/// A flushed cache holds no bitmap for any glyph and size.
pub proof fn law_cache_flush_forgets(id: u32, size_bits: u32)
    ensures
        !Map::<u64, (Metrics, Vec<u8>)>::empty().contains_key(cache_key(id, size_bits)),
{
}

/// Two glyph/size pairs share a cache entry only when they are the same
/// pair: sizes that differ in any bit (such as 16.2 and 17.0) are cached apart.
pub proof fn law_cache_keys_distinct(id1: u32, bits1: u32, id2: u32, bits2: u32)
    ensures
        cache_key(id1, bits1) == cache_key(id2, bits2) ==> id1 == id2 && bits1 == bits2,
{
    if cache_key(id1, bits1) == cache_key(id2, bits2) {
        assert(id1 as int * 0x1_0000_0000 + bits1 < 0x1_0000_0000_0000_0000) by (nonlinear_arith)
            requires
                id1 < 0x1_0000_0000,
                bits1 < 0x1_0000_0000,
        ;
        assert(id2 as int * 0x1_0000_0000 + bits2 < 0x1_0000_0000_0000_0000) by (nonlinear_arith)
            requires
                id2 < 0x1_0000_0000,
                bits2 < 0x1_0000_0000,
        ;
        assert(id1 == id2 && bits1 == bits2) by (nonlinear_arith)
            requires
                id1 as int * 0x1_0000_0000 + bits1 == id2 as int * 0x1_0000_0000 + bits2,
                0 <= bits1 < 0x1_0000_0000,
                0 <= bits2 < 0x1_0000_0000,
                0 <= id1,
                0 <= id2,
        ;
    }
}

/// Two glyph pairs share a kerning entry only when they are the same pair.
pub proof fn law_pair_keys_distinct(l1: u32, r1: u32, l2: u32, r2: u32)
    ensures
        pair_key(l1, r1) == pair_key(l2, r2) ==> l1 == l2 && r1 == r2,
{
    law_cache_keys_distinct(l1, r1, l2, r2);
}

/// A font without kerning pairs or class matrices kerns no pair.
pub proof fn law_no_kerning_sources(left: u32, right: u32)
    ensures
        spec_kerning(Map::empty(), Seq::empty(), left, right) is None,
{
}

// ---------------------------------------------------------------------------
// The character index of a loaded font
// ---------------------------------------------------------------------------

proof fn lemma_fold4_source(m: Map<u64, u32>, d: CmapFormat4, n: int, s: int, k: u64)
    requires
        fold4(m, d, n, s).contains_key(k),
    ensures
        m.contains_key(k) && fold4(m, d, n, s)[k] == m[k] || exists|i: int|
            0 <= i < s && #[trigger] keep4(d, n, i, k as int) && fold4(m, d, n, s)[k] == format4_glyph(
                d,
                i,
                k as u16,
            ),
    decreases s,
{
    if s > 0 {
        if !crate::glyph_index::seg_map4(d, n, s - 1).contains_key(k) {
            lemma_fold4_source(m, d, n, s - 1, k);
        } else {
            assert(keep4(d, n, s - 1, k as int));
        }
    }
}

proof fn lemma_fold12_source(m: Map<u64, u32>, gs: Seq<SequentialMapGroup>, n: int, s: int, k: u64)
    requires
        fold12(m, gs, n, s).contains_key(k),
    ensures
        m.contains_key(k) && fold12(m, gs, n, s)[k] == m[k] || exists|i: int|
            0 <= i < s && #[trigger] keep12(gs[i], n, k as int) && fold12(m, gs, n, s)[k] == group_gid(
                gs[i],
                k as int,
            ) as u32,
    decreases s,
{
    if s > 0 {
        if !crate::glyph_index::group_map12(gs[s - 1], n).contains_key(k) {
            lemma_fold12_source(m, gs, n, s - 1, k);
        } else {
            assert(keep12(gs[s - 1], n, k as int));
        }
    }
}

/// Every glyph the index of subtable `sub` maps a code to lies inside the
/// glyph table and is not the missing glyph.
proof fn lemma_index_values(sub: SupportedCmapFormats, n: int, k: u64)
    requires
        n <= 0xFFFF,
        subtable_index(Map::empty(), sub, n).contains_key(k),
    ensures
        0 < subtable_index(Map::empty(), sub, n)[k] < n,
{
    match sub {
        SupportedCmapFormats::Format0 { data, .. } => {
            assert(keep0(data, n, k as int));
        },
        SupportedCmapFormats::Format4 { data, .. } => {
            lemma_fold4_source(Map::empty(), data, n, (data.seg_count_x2 / 2) as int, k);
        },
        SupportedCmapFormats::Format6 { data, .. } => {
            assert(keep6(data, n, k as int));
        },
        SupportedCmapFormats::Format12 { data, .. } => {
            lemma_fold12_source(Map::empty(), data.groups@, n, data.groups@.len() as int, k);
        },
    }
}

/// In a loaded font every glyph's outline is resolved, and every character
/// the index maps leads to a glyph of the font other than the missing one;
/// every other character leads to the missing glyph.
pub proof fn law_index_reaches_loaded_glyphs(s: Seq<u8>, f: TrueTypeFont, c: char)
    requires
        loaded_font(s, f),
    ensures
        f.glyph_id_table@.contains_key(c as u64) ==> 0 < glyph_of(f.glyph_id_table@, c) < num_glyphs_of(s)
            && f.glyph_data_table@[glyph_of(f.glyph_id_table@, c) as int] is Some,
        !f.glyph_id_table@.contains_key(c as u64) ==> glyph_of(f.glyph_id_table@, c) == 0,
        forall|j: int| 0 <= j < num_glyphs_of(s) ==> (#[trigger] f.glyph_data_table@[j]) is Some,
{
    let subs = f.cmap.subtables@;
    let ng = num_glyphs_of(s) as int;
    if f.glyph_id_table@.contains_key(c as u64) {
        assert(subs.len() > 0);
        lemma_index_values(subs[0], ng, c as u64);
        let v = glyph_of(f.glyph_id_table@, c) as int;
        assert(f.glyph_data_table@[v] is Some);
    }
}

/// For a format-0 or format-6 subtable, the index built at load time gives
/// every character the glyph that looking the character up in the subtable
/// gives, when that glyph is a real glyph of the font, and the missing
/// glyph otherwise.
pub proof fn law_index_agrees_with_lookup(s: Seq<u8>, f: TrueTypeFont, c: char)
    requires
        loaded_font(s, f),
        f.cmap.subtables@.len() > 0,
        f.cmap.subtables@[0] is Format0 || f.cmap.subtables@[0] is Format6,
    ensures
        ({
            let g = spec_lookup(f.cmap.subtables@[0], c as u32);
            glyph_of(f.glyph_id_table@, c) == if 0 < g < num_glyphs_of(s) {
                g
            } else {
                0
            }
        }),
{
    let sub = f.cmap.subtables@[0];
    let ng = num_glyphs_of(s) as int;
    let k = c as u64;
    match sub {
        SupportedCmapFormats::Format0 { data, .. } => {
            assert(f.glyph_id_table@ == Map::<u64, u32>::empty().union_prefer_right(map0(data, ng)));
        },
        SupportedCmapFormats::Format6 { data, .. } => {
            assert(f.glyph_id_table@ == Map::<u64, u32>::empty().union_prefer_right(map6(data, ng)));
            assert(crate::tables::cmap::subtable_wf(sub));
        },
        _ => {},
    }
}

/// The segments of a format-4 subtable are in the order the format
/// prescribes: each one non-empty and lying wholly after the previous one.
pub open spec fn segments_ordered(d: CmapFormat4) -> bool {
    let sc = d.seg_count_x2 / 2;
    &&& forall|i: int| 0 <= i < sc ==> d.start_count@[i] <= #[trigger] d.end_count@[i]
    &&& forall|i: int, j: int| 0 <= i < j < sc ==> #[trigger] d.end_count@[i] < #[trigger] d.start_count@[j]
}

proof fn lemma_fold4_complete(m: Map<u64, u32>, d: CmapFormat4, n: int, s: int, j: int, k: u64)
    requires
        0 <= j < s,
        keep4(d, n, j, k as int),
    ensures
        fold4(m, d, n, s).contains_key(k),
    decreases s,
{
    if j < s - 1 {
        lemma_fold4_complete(m, d, n, s - 1, j, k);
    } else {
        assert(crate::glyph_index::seg_map4(d, n, s - 1).contains_key(k));
    }
}

/// For a format-4 subtable whose segments are in the prescribed order, the
/// index built at load time gives every character the glyph that
/// looking it up in the subtable gives, when that glyph is a real glyph of
/// the font, and the missing glyph otherwise. U+FFFF is left out: a segment
/// that starts there is the end marker, which the index skips.
pub proof fn law_index_agrees_with_format4_lookup(s: Seq<u8>, f: TrueTypeFont, c: char)
    requires
        loaded_font(s, f),
        f.cmap.subtables@.len() > 0,
        f.cmap.subtables@[0] matches SupportedCmapFormats::Format4 { data, .. } && segments_ordered(data),
        (c as u32) != 0xFFFF,
    ensures
        ({
            let g = spec_lookup(f.cmap.subtables@[0], c as u32);
            glyph_of(f.glyph_id_table@, c) == if 0 < g < num_glyphs_of(s) {
                g
            } else {
                0
            }
        }),
{
    let sub = f.cmap.subtables@[0];
    let ng = num_glyphs_of(s) as int;
    let k = c as u64;
    if let SupportedCmapFormats::Format4 { data: d, .. } = sub {
        let sc = (d.seg_count_x2 / 2) as int;
        assert(subtable_wf(sub));
        assert(f.glyph_id_table@ == fold4(Map::<u64, u32>::empty(), d, ng, sc));
        if (c as u32) > 0xFFFF {
            if f.glyph_id_table@.contains_key(k) {
                lemma_fold4_source(Map::empty(), d, ng, sc, k);
            }
            return;
        }
        let c16 = c as u16;
        assert(c16 as int == c as int);
        assert(sorted_u16(d.end_count@)) by {
            assert forall|i: int, j: int| 0 <= i <= j < d.end_count@.len() implies d.end_count@[i]
                <= d.end_count@[j] by {
                if i < j {
                    assert(d.end_count@[i] < d.start_count@[j]);
                    assert(d.start_count@[j] <= d.end_count@[j]);
                }
            }
        }
        let b = search_pos(d.end_count@, c16);
        lemma_search_pos(d.end_count@, c16);
        assert(is_boundary(d.end_count@, c16, b));
        assert(f.glyph_id_table@ == fold4(Map::<u64, u32>::empty(), d, ng, sc));
        // A segment that keeps `c` is the boundary segment.
        assert forall|j: int| 0 <= j < sc && #[trigger] keep4(d, ng, j, c as int) implies j == b by {
            if j < b {
                assert(d.end_count@[j] <= d.end_count@[b - 1]);
            } else if j > b {
                assert(d.end_count@[b] < d.start_count@[j]);
            }
        }
        if exists|j: int| 0 <= j < sc && #[trigger] keep4(d, ng, j, c as int) {
            let j = choose|j: int| 0 <= j < sc && #[trigger] keep4(d, ng, j, c as int);
            lemma_fold4_complete(Map::empty(), d, ng, sc, j, k);
            lemma_fold4_source(Map::empty(), d, ng, sc, k);
        } else {
            if f.glyph_id_table@.contains_key(k) {
                lemma_fold4_source(Map::empty(), d, ng, sc, k);
            }
            if b < sc && c16 >= d.start_count@[b] {
                assert(!keep4(d, ng, b, c as int));
            }
        }
    }
}

/// The groups of a format-12 subtable are as the format prescribes: as many
/// as the header counts, each one non-empty, of Unicode codes, with glyph
/// ids that stay below 2^32, and lying wholly after the previous one.
pub open spec fn groups_ordered(d: CmapFormat12) -> bool {
    let g = d.groups@;
    &&& d.num_groups == g.len()
    &&& forall|i: int|
        0 <= i < g.len() ==> (#[trigger] g[i]).start_char_code <= g[i].end_char_code <= 0x10FFFF
            && g[i].start_glyph_id + (g[i].end_char_code - g[i].start_char_code) < 0x1_0000_0000
    &&& forall|i: int, j: int|
        0 <= i < j < g.len() ==> (#[trigger] g[i]).end_char_code < (#[trigger] g[j]).start_char_code
}

proof fn lemma_fold12_complete(m: Map<u64, u32>, gs: Seq<SequentialMapGroup>, n: int, s: int, j: int, k: u64)
    requires
        0 <= j < s,
        keep12(gs[j], n, k as int),
    ensures
        fold12(m, gs, n, s).contains_key(k),
    decreases s,
{
    if j < s - 1 {
        lemma_fold12_complete(m, gs, n, s - 1, j, k);
    } else {
        assert(crate::glyph_index::group_map12(gs[s - 1], n).contains_key(k));
    }
}

/// For a format-12 subtable whose groups are as the format prescribes, the
/// index built at load time gives every character the glyph that looking
/// it up in the subtable gives, when that glyph is a real glyph of the
/// font, and the missing glyph otherwise.
pub proof fn law_index_agrees_with_format12_lookup(s: Seq<u8>, f: TrueTypeFont, c: char)
    requires
        loaded_font(s, f),
        f.cmap.subtables@.len() > 0,
        f.cmap.subtables@[0] matches SupportedCmapFormats::Format12 { data, .. } && groups_ordered(data),
    ensures
        ({
            let g = spec_lookup(f.cmap.subtables@[0], c as u32);
            glyph_of(f.glyph_id_table@, c) == if 0 < g < num_glyphs_of(s) {
                g
            } else {
                0
            }
        }),
{
    let sub = f.cmap.subtables@[0];
    let ng = num_glyphs_of(s) as int;
    let k = c as u64;
    let cc = c as u32;
    if let SupportedCmapFormats::Format12 { data: d, .. } = sub {
        let gs = d.groups@;
        let len = gs.len() as int;
        let e = group_ends(gs);
        assert(f.glyph_id_table@ == fold12(Map::<u64, u32>::empty(), gs, ng, len));
        lemma_search32(e, cc, 0, len);
        let b = search32(e, cc, 0, len);
        assert(is_boundary32(e, cc, b));
        // A group that keeps `c` is the boundary group.
        assert forall|j: int| 0 <= j < len && #[trigger] keep12(gs[j], ng, k as int) implies j == b by {
            if j < b {
                if j < b - 1 {
                    assert(gs[j].end_char_code < gs[b - 1].start_char_code);
                    assert(gs[b - 1].start_char_code <= gs[b - 1].end_char_code);
                }
                assert(e[b - 1] == gs[b - 1].end_char_code);
            } else if j > b {
                assert(e[b] == gs[b].end_char_code);
                assert(gs[b].end_char_code < gs[j].start_char_code);
            }
        }
        if b < len && gs[b].start_char_code <= cc <= gs[b].end_char_code {
            let gb = gs[b];
            assert(gb.start_glyph_id + (gb.end_char_code - gb.start_char_code) < 0x1_0000_0000);
            assert(group_glyph(gb, cc) as int == group_gid(gb, k as int));
        }
        if exists|j: int| 0 <= j < len && #[trigger] keep12(gs[j], ng, k as int) {
            let j = choose|j: int| 0 <= j < len && #[trigger] keep12(gs[j], ng, k as int);
            lemma_fold12_complete(Map::empty(), gs, ng, len, j, k);
            lemma_fold12_source(Map::empty(), gs, ng, len, k);
        } else {
            if f.glyph_id_table@.contains_key(k) {
                lemma_fold12_source(Map::empty(), gs, ng, len, k);
            }
            if b < len && gs[b].start_char_code <= cc <= gs[b].end_char_code {
                assert(!keep12(gs[b], ng, k as int));
            }
        }
    }
}

/// Caching a bitmap in a cache that is not full adds exactly its key: the
/// number of cached bitmaps grows by one for a new glyph and size, and
/// stays for one already cached.
pub proof fn law_cache_set_counts(
    c: Map<u64, (Metrics, Vec<u8>)>,
    id: u32,
    size_bits: u32,
    entry: (Metrics, Vec<u8>),
)
    requires
        c.dom().finite(),
        c.dom().len() < MAX_ENTRIES,
        cache_key(id, size_bits) != EMPTY,
    ensures
        cache_after_set(c, id, size_bits, entry).dom() == c.dom().insert(cache_key(id, size_bits)),
        cache_after_set(c, id, size_bits, entry).dom().len() == c.dom().len() + if c.contains_key(
            cache_key(id, size_bits),
        ) {
            0int
        } else {
            1int
        },
{
    let k = cache_key(id, size_bits);
    assert(cache_after_set(c, id, size_bits, entry).dom() =~= c.dom().insert(k));
    if c.contains_key(k) {
        assert(c.dom().insert(k) =~= c.dom());
    }
}

/// Inserting into an open-addressing map makes the key read back the value,
/// leaves every other key as it was, and grows the entry count by one
/// exactly when the key was new.
pub proof fn law_fastmap_insert<V>(m: Map<u64, V>, key: u64, value: V, other: u64)
    requires
        m.dom().finite(),
        other != key,
    ensures
        m.insert(key, value).contains_key(key),
        m.insert(key, value)[key] == value,
        m.insert(key, value).contains_key(other) == m.contains_key(other),
        m.contains_key(other) ==> m.insert(key, value)[other] == m[other],
        m.insert(key, value).dom().len() == m.dom().len() + if m.contains_key(key) {
            0int
        } else {
            1int
        },
{
    if m.contains_key(key) {
        assert(m.insert(key, value).dom() =~= m.dom());
    }
}

/// The keys of the glyph and size pairs in `sets`.
pub open spec fn keys_of_sets(sets: Seq<(u32, u32, (Metrics, Vec<u8>))>) -> Set<u64>
    decreases sets.len(),
{
    if sets.len() == 0 {
        Set::empty()
    } else {
        keys_of_sets(sets.drop_last()).insert(cache_key(sets.last().0, sets.last().1))
    }
}

/// The cache contents `c` after caching each entry of `sets` in turn.
pub open spec fn cache_after_sets(
    c: Map<u64, (Metrics, Vec<u8>)>,
    sets: Seq<(u32, u32, (Metrics, Vec<u8>))>,
) -> Map<u64, (Metrics, Vec<u8>)>
    decreases sets.len(),
{
    if sets.len() == 0 {
        c
    } else {
        cache_after_set(cache_after_sets(c, sets.drop_last()), sets.last().0, sets.last().1, sets.last().2)
    }
}

/// Starting from an empty cache (a new or flushed one), caching bitmaps
/// that never find the cache full leaves exactly the distinct glyph and
/// size keys that were cached: the number of cached bitmaps is the number
/// of distinct keys.
pub proof fn law_cache_counts_distinct_keys(sets: Seq<(u32, u32, (Metrics, Vec<u8>))>)
    requires
        forall|i: int| 0 <= i < sets.len() ==> cache_key(#[trigger] sets[i].0, sets[i].1) != EMPTY,
        forall|i: int| 0 <= i < sets.len() ==> (#[trigger] keys_of_sets(sets.take(i))).len() < MAX_ENTRIES,
    ensures
        keys_of_sets(sets).finite(),
        cache_after_sets(Map::empty(), sets).dom() == keys_of_sets(sets),
        cache_after_sets(Map::empty(), sets).dom().len() == keys_of_sets(sets).len(),
    decreases sets.len(),
{
    if sets.len() > 0 {
        let p = sets.drop_last();
        assert forall|i: int| 0 <= i < p.len() implies cache_key(#[trigger] p[i].0, p[i].1) != EMPTY by {
            assert(p[i] == sets[i]);
        }
        assert forall|i: int| 0 <= i < p.len() implies (#[trigger] keys_of_sets(p.take(i))).len()
            < MAX_ENTRIES by {
            assert(p.take(i) =~= sets.take(i));
            assert(keys_of_sets(sets.take(i)).len() < MAX_ENTRIES);
        }
        law_cache_counts_distinct_keys(p);
        let n = sets.len() - 1;
        assert(sets.take(n) =~= p);
        assert(keys_of_sets(sets.take(n)).len() < MAX_ENTRIES);
        assert(cache_key(sets[n].0, sets[n].1) != EMPTY);
        let c = cache_after_sets(Map::empty(), p);
        assert(cache_after_sets(Map::empty(), sets) == cache_after_set(c, sets.last().0, sets.last().1, sets.last().2));
        assert(cache_after_sets(Map::empty(), sets).dom() =~= keys_of_sets(sets));
    }
}

} // verus!
