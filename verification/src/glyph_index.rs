//! The character-to-glyph index and the glyph outlines built at load time.
//!
//! The outline of every glyph of the font is resolved once. Every character
//! code that the kept `cmap` subtable maps to a glyph other than the missing
//! glyph, and inside the glyph table, is entered into the index (a later
//! entry for the same code replaces an earlier one).

use vstd::prelude::*;
use vstd::set_lib::{FiniteRange, lemma_len_subset};
use crate::fastmap::FastMap;
use crate::font::{TableRecord, TrueTypeFont};
use crate::outline::{GlyphOutline, OutlineV, outline_of, resolve_outline};
use crate::tables::cmap::{SupportedCmapFormats, subtable_wf, CmapFormat0, CmapFormat4, CmapFormat6, CmapFormat12, SequentialMapGroup, format4_glyph, format4_glyph_exec};
use crate::tables::glyf::{glyph_or_empty, parse_glyph_or_empty};
use crate::tables::loca::LocaTable;

verus! {

/// `c` is a Unicode scalar value (a code point that is not a surrogate).
pub open spec fn is_scalar_value(c: int) -> bool {
    0 <= c <= 0x10FFFF && !(0xD800 <= c <= 0xDFFF)
}

/// Whether `c` is a Unicode scalar value.
pub fn is_scalar(c: u32) -> (r: bool)
    ensures
        r == is_scalar_value(c as int),
{
    c < 0xD800 || (0xDFFF < c && c <= 0x10FFFF)
}

/// The resolved outline of glyph `id`, an unreadable glyph counting as empty.
#[verifier::opaque]
pub open spec fn glyph_outline(s: Seq<u8>, loca: LocaTable, glyf: TableRecord, ng: u16, id: int) -> OutlineV {
    outline_of(s, loca, glyf, ng, id as u16, glyph_or_empty(s, loca, glyf, ng, id))
}

/// The keys of `m` are all code points (below `0x110000`).
pub open spec fn code_point_keys(m: Map<u64, u32>) -> bool {
    forall|k: u64| #[trigger] m.contains_key(k) ==> k < 0x110000
}

/// A map keyed by code points has at most `0x110000` entries.
pub proof fn lemma_code_point_keys_len(m: Map<u64, u32>)
    requires
        m.dom().finite(),
        code_point_keys(m),
    ensures
        m.dom().len() <= 0x110000,
{
    let r = <u64 as FiniteRange>::range_set(0, 0x110000);
    <u64 as FiniteRange>::range_properties(0, 0x110000);
    assert(m.dom().subset_of(r));
    lemma_len_subset(m.dom(), r);
}

/// Reads and resolves glyph `gid`.
pub fn load_glyph(b: &[u8], loca: &LocaTable, glyf: &TableRecord, ng: u16, gid: u32) -> (o: GlyphOutline)
    ensures
        o@ == glyph_outline(b@, *loca, *glyf, ng, gid as int),
{
    let proto = parse_glyph_or_empty(b, loca, glyf, ng, gid);
    let o = resolve_outline(b, loca, glyf, ng, #[verifier::truncate] (gid as u16), &proto);
    proof {
        reveal(glyph_outline);
    }
    o
}

// ---------------------------------------------------------------------------
// Format 0
// ---------------------------------------------------------------------------

/// Code `k` of a format-0 subtable enters the index, for a glyph table of `n` slots.
pub open spec fn keep0(d: CmapFormat0, n: int, k: int) -> bool {
    0 <= k < 256 && 0 < d.glyph_id_array@[k] < n
}

/// What a format-0 subtable adds to the index.
pub open spec fn map0(d: CmapFormat0, n: int) -> Map<u64, u32> {
    Map::new(|k: u64| keep0(d, n, k as int), |k: u64| d.glyph_id_array@[k as int] as u32)
}

/// Enters the codes of a format-0 subtable into `ids`, for a glyph table of `n` slots.
pub fn walk_format0(d: &CmapFormat0, ids: &mut FastMap<u32>, n: usize)
    requires
        old(ids).wf(),
        code_point_keys(old(ids)@),
    ensures
        final(ids).wf(),
        code_point_keys(final(ids)@),
        final(ids)@ == old(ids)@.union_prefer_right(map0(*d, n as int)),
{
    let ghost m0 = ids@;
    let mut c: usize = 0;
    proof {
        assert(ids@ =~= m0.union_prefer_right(map0(*d, n as int).restrict(Set::new(|k: u64| k < c))));
    }
    while c < 256
        invariant
            c <= 256,
            ids.wf(),
            code_point_keys(ids@),
            ids@ == m0.union_prefer_right(map0(*d, n as int).restrict(Set::new(|k: u64| k < c))),
        decreases 256 - c,
    {
        let gid = d.glyph_id_array[c] as u32;
        if gid != 0 && (gid as usize) < n {
            proof {
                ids.lemma_finite();
                lemma_code_point_keys_len(ids@);
            }
            ids.insert(c as u64, gid);
        }
        proof {
            assert(ids@ =~= m0.union_prefer_right(
                map0(*d, n as int).restrict(Set::new(|k: u64| k < (c + 1) as usize)),
            ));
        }
        c = c + 1;
    }
}

// ---------------------------------------------------------------------------
// Format 6
// ---------------------------------------------------------------------------

/// Code `k` of a format-6 subtable enters the index, for a glyph table of
/// `n` slots (the format covers the Basic Multilingual Plane only).
pub open spec fn keep6(d: CmapFormat6, n: int, k: int) -> bool {
    &&& d.first_code <= k < d.first_code + d.entry_count
    &&& k <= 0xFFFF
    &&& is_scalar_value(k)
    &&& 0 < d.glyph_id_array@[k - d.first_code] < n
}

/// What a format-6 subtable adds to the index.
pub open spec fn map6(d: CmapFormat6, n: int) -> Map<u64, u32> {
    Map::new(|k: u64| keep6(d, n, k as int), |k: u64| d.glyph_id_array@[k - d.first_code] as u32)
}

/// Enters the codes of a format-6 subtable into `ids`, for a glyph table of `n` slots.
pub fn walk_format6(d: &CmapFormat6, ids: &mut FastMap<u32>, n: usize)
    requires
        old(ids).wf(),
        code_point_keys(old(ids)@),
        d.glyph_id_array@.len() == d.entry_count,
    ensures
        final(ids).wf(),
        code_point_keys(final(ids)@),
        final(ids)@ == old(ids)@.union_prefer_right(map6(*d, n as int)),
{
    let ghost m0 = ids@;
    let first = d.first_code as u32;
    let count = d.entry_count as u32;
    let mut i: u32 = 0;
    proof {
        assert(ids@ =~= m0.union_prefer_right(map6(*d, n as int).restrict(Set::new(|k: u64| k < first + i))));
    }
    while i < count
        invariant
            i <= count,
            count == d.entry_count,
            first == d.first_code,
            d.glyph_id_array@.len() == d.entry_count,
            ids.wf(),
            code_point_keys(ids@),
            ids@ == m0.union_prefer_right(map6(*d, n as int).restrict(Set::new(|k: u64| k < first + i))),
        decreases count - i,
    {
        let cp = first + i;
        let gid = d.glyph_id_array[i as usize] as u32;
        if cp <= 0xFFFF && is_scalar(cp) && gid != 0 && (gid as usize) < n {
            proof {
                ids.lemma_finite();
                lemma_code_point_keys_len(ids@);
            }
            ids.insert(cp as u64, gid);
        }
        proof {
            assert(ids@ =~= m0.union_prefer_right(
                map6(*d, n as int).restrict(Set::new(|k: u64| k < first + (i + 1) as u32)),
            ));
        }
        i = i + 1;
    }
}

// ---------------------------------------------------------------------------
// Format 4
// ---------------------------------------------------------------------------

/// Code `k` of segment `i` of a format-4 subtable enters the index, for a
/// glyph table of `n` slots (a segment starting at `0xFFFF` is skipped).
pub open spec fn keep4(d: CmapFormat4, n: int, i: int, k: int) -> bool {
    &&& d.start_count@[i] != 0xFFFF
    &&& d.start_count@[i] <= k <= d.end_count@[i]
    &&& is_scalar_value(k)
    &&& 0 < format4_glyph(d, i, k as u16) < n
}

/// What segment `i` of a format-4 subtable adds to the index.
pub open spec fn seg_map4(d: CmapFormat4, n: int, i: int) -> Map<u64, u32> {
    Map::new(|k: u64| keep4(d, n, i, k as int), |k: u64| format4_glyph(d, i, k as u16))
}

/// `m` after the first `s` segments of a format-4 subtable; a later
/// segment replaces what an earlier one entered for the same code.
pub open spec fn fold4(m: Map<u64, u32>, d: CmapFormat4, n: int, s: int) -> Map<u64, u32>
    decreases s,
{
    if s <= 0 {
        m
    } else {
        fold4(m, d, n, s - 1).union_prefer_right(seg_map4(d, n, s - 1))
    }
}

/// Enters the codes of a format-4 subtable into `ids`, for a glyph table of `n` slots.
pub fn walk_format4(d: &CmapFormat4, ids: &mut FastMap<u32>, n: usize)
    requires
        old(ids).wf(),
        code_point_keys(old(ids)@),
        d.end_count@.len() == d.seg_count_x2 / 2,
        d.start_count@.len() == d.seg_count_x2 / 2,
        d.id_delta@.len() == d.seg_count_x2 / 2,
        d.id_range_offset@.len() == d.seg_count_x2 / 2,
    ensures
        final(ids).wf(),
        code_point_keys(final(ids)@),
        final(ids)@ == fold4(old(ids)@, *d, n as int, (d.seg_count_x2 / 2) as int),
{
    let ghost m0 = ids@;
    let seg_count = (d.seg_count_x2 / 2) as usize;
    let mut seg: usize = 0;
    while seg < seg_count
        invariant
            seg <= seg_count,
            seg_count == d.seg_count_x2 / 2,
            d.end_count@.len() == seg_count,
            d.start_count@.len() == seg_count,
            d.id_delta@.len() == seg_count,
            d.id_range_offset@.len() == seg_count,
            ids.wf(),
            code_point_keys(ids@),
            ids@ == fold4(m0, *d, n as int, seg as int),
        decreases seg_count - seg,
    {
        let start = d.start_count[seg];
        let end = d.end_count[seg];
        let ghost prior = fold4(m0, *d, n as int, seg as int);
        if start != 0xFFFF && start <= end {
            let mut c: u32 = start as u32;
            proof {
                assert(ids@ =~= prior.union_prefer_right(
                    seg_map4(*d, n as int, seg as int).restrict(Set::new(|k: u64| k < c)),
                ));
            }
            while c <= end as u32
                invariant
                    start as u32 <= c <= end as u32 + 1,
                    start == d.start_count@[seg as int],
                    end == d.end_count@[seg as int],
                    start != 0xFFFF,
                    start <= end,
                    seg < seg_count,
                    seg_count == d.seg_count_x2 / 2,
                    d.end_count@.len() == seg_count,
                    d.start_count@.len() == seg_count,
                    d.id_delta@.len() == seg_count,
                    d.id_range_offset@.len() == seg_count,
                    prior == fold4(m0, *d, n as int, seg as int),
                    ids.wf(),
                    code_point_keys(ids@),
                    ids@ == prior.union_prefer_right(
                        seg_map4(*d, n as int, seg as int).restrict(Set::new(|k: u64| k < c)),
                    ),
                decreases end as u32 + 1 - c,
            {
                let c16 = c as u16;
                let gid = format4_glyph_exec(d, seg, c16);
                if is_scalar(c) && gid != 0 && (gid as usize) < n {
                    proof {
                        ids.lemma_finite();
                        lemma_code_point_keys_len(ids@);
                    }
                    ids.insert(c as u64, gid);
                }
                proof {
                    assert(c16 as int == c as int);
                    assert(ids@ =~= prior.union_prefer_right(
                        seg_map4(*d, n as int, seg as int).restrict(Set::new(|k: u64| k < (c + 1) as u32)),
                    ));
                }
                c = c + 1;
            }
        }
        proof {
            assert(ids@ =~= fold4(m0, *d, n as int, seg + 1));
        }
        seg = seg + 1;
    }
}

// ---------------------------------------------------------------------------
// Format 12
// ---------------------------------------------------------------------------

/// Glyph that code `k` gets from group `g` (counted without wrapping).
pub open spec fn group_gid(g: SequentialMapGroup, k: int) -> int {
    g.start_glyph_id + (k - g.start_char_code)
}

/// Code `k` of group `g` enters the index, for a glyph table of `n` slots
/// (an inverted group, or one reaching past `0x10FFFF`, is skipped).
pub open spec fn keep12(g: SequentialMapGroup, n: int, k: int) -> bool {
    &&& g.start_char_code <= g.end_char_code <= 0x10FFFF
    &&& g.start_char_code <= k <= g.end_char_code
    &&& is_scalar_value(k)
    &&& 0 < group_gid(g, k) < n
}

/// What group `g` adds to the index.
pub open spec fn group_map12(g: SequentialMapGroup, n: int) -> Map<u64, u32> {
    Map::new(|k: u64| keep12(g, n, k as int), |k: u64| group_gid(g, k as int) as u32)
}

/// `m` after the first `s` groups; a later group replaces what an earlier
/// one entered for the same code.
pub open spec fn fold12(m: Map<u64, u32>, gs: Seq<SequentialMapGroup>, n: int, s: int) -> Map<u64, u32>
    decreases s,
{
    if s <= 0 {
        m
    } else {
        fold12(m, gs, n, s - 1).union_prefer_right(group_map12(gs[s - 1], n))
    }
}

/// Enters the codes of a format-12 subtable into `ids`, for a glyph table of `n` slots.
pub fn walk_format12(d: &CmapFormat12, ids: &mut FastMap<u32>, n: usize)
    requires
        old(ids).wf(),
        code_point_keys(old(ids)@),
        n <= u32::MAX,
    ensures
        final(ids).wf(),
        code_point_keys(final(ids)@),
        final(ids)@ == fold12(old(ids)@, d.groups@, n as int, d.groups@.len() as int),
{
    let ghost m0 = ids@;
    let ghost gs = d.groups@;
    let count = d.groups.len();
    let mut gi: usize = 0;
    while gi < count
        invariant
            gi <= count,
            count == gs.len(),
            gs == d.groups@,
            n <= u32::MAX,
            ids.wf(),
            code_point_keys(ids@),
            ids@ == fold12(m0, gs, n as int, gi as int),
        decreases count - gi,
    {
        let g = d.groups[gi];
        let ghost prior = fold12(m0, gs, n as int, gi as int);
        if g.start_char_code <= g.end_char_code && g.end_char_code <= 0x10FFFF {
            let mut c: u32 = g.start_char_code;
            proof {
                assert(ids@ =~= prior.union_prefer_right(
                    group_map12(g, n as int).restrict(Set::new(|k: u64| k < c)),
                ));
            }
            while c <= g.end_char_code
                invariant
                    g.start_char_code <= c <= g.end_char_code + 1,
                    g.start_char_code <= g.end_char_code <= 0x10FFFF,
                    g == gs[gi as int],
                    gi < count,
                    count == gs.len(),
                    n <= u32::MAX,
                    prior == fold12(m0, gs, n as int, gi as int),
                    ids.wf(),
                    code_point_keys(ids@),
                    ids@ == prior.union_prefer_right(group_map12(g, n as int).restrict(Set::new(|k: u64| k < c))),
                decreases g.end_char_code + 1 - c,
            {
                let gid64: u64 = g.start_glyph_id as u64 + (c - g.start_char_code) as u64;
                if is_scalar(c) && gid64 != 0 && gid64 < n as u64 {
                    proof {
                        ids.lemma_finite();
                        lemma_code_point_keys_len(ids@);
                    }
                    ids.insert(c as u64, gid64 as u32);
                }
                proof {
                    assert(gid64 == group_gid(g, c as int));
                    assert(ids@ =~= prior.union_prefer_right(
                        group_map12(g, n as int).restrict(Set::new(|k: u64| k < (c + 1) as u32)),
                    ));
                }
                c = c + 1;
            }
        }
        proof {
            assert(ids@ =~= fold12(m0, gs, n as int, gi + 1));
        }
        gi = gi + 1;
    }
}

// ---------------------------------------------------------------------------
// The whole walk
// ---------------------------------------------------------------------------

/// `m` with the codes of subtable `sub` entered, for a glyph table of `n` slots.
pub open spec fn subtable_index(m: Map<u64, u32>, sub: SupportedCmapFormats, n: int) -> Map<u64, u32> {
    match sub {
        SupportedCmapFormats::Format0 { data, .. } => m.union_prefer_right(map0(data, n)),
        SupportedCmapFormats::Format4 { data, .. } => fold4(m, data, n, (data.seg_count_x2 / 2) as int),
        SupportedCmapFormats::Format6 { data, .. } => m.union_prefer_right(map6(data, n)),
        SupportedCmapFormats::Format12 { data, .. } => fold12(m, data.groups@, n, data.groups@.len() as int),
    }
}

/// Number of glyph slots after loading: `num_glyphs`, or the slots already
/// there when the font declares no glyphs.
pub open spec fn slot_count(old_len: int, num_glyphs: u16) -> int {
    if num_glyphs > 0 {
        num_glyphs as int
    } else {
        old_len
    }
}

impl TrueTypeFont {
    /// Resolves the outline of every glyph and builds the character index
    /// from the kept `cmap` subtable.
    ///
    /// The glyph table gets `maxp.num_glyphs` slots (as many as it had when
    /// that is 0), each holding the outline of its glyph. Codes that are not
    /// Unicode scalar values, or map to glyph 0 or past the glyph table, are
    /// left out of the index.
    pub fn cache_all_glyphs(&mut self, font_bytes: &[u8])
        requires
            old(self).glyph_id_table.wf(),
            code_point_keys(old(self).glyph_id_table@),
            old(self).glyph_data_table@.len() <= u32::MAX,
            forall|k: int| 0 <= k < old(self).cmap.subtables@.len() ==> subtable_wf(
                #[trigger] old(self).cmap.subtables@[k],
            ),
        ensures
            ({
                let s = font_bytes@;
                let o = *old(self);
                let f = *final(self);
                let n = slot_count(o.glyph_data_table@.len() as int, o.maxp.num_glyphs);
                let subs = o.cmap.subtables@;
                &&& f == (TrueTypeFont {
                    glyph_data_table: f.glyph_data_table,
                    glyph_id_table: f.glyph_id_table,
                    ..o
                })
                &&& f.glyph_id_table.wf()
                &&& code_point_keys(f.glyph_id_table@)
                &&& f.glyph_id_table@ == if subs.len() > 0 {
                    subtable_index(o.glyph_id_table@, subs[0], n)
                } else {
                    o.glyph_id_table@
                }
                &&& f.glyph_data_table@.len() == n
                &&& forall|j: int|
                    0 <= j < n ==> (#[trigger] f.glyph_data_table@[j]) is Some
                        && f.glyph_data_table@[j]->0@ == glyph_outline(s, o.loca, o.glyf, o.maxp.num_glyphs, j)
            }),
    {
        let ng = self.maxp.num_glyphs;
        let n: usize = if ng > 0 {
            ng as usize
        } else {
            self.glyph_data_table.len()
        };
        let mut table: Vec<Option<GlyphOutline>> = Vec::new();
        let mut j: usize = 0;
        while j < n
            invariant
                j <= n,
                n <= u32::MAX,
                table@.len() == j,
                forall|q: int|
                    0 <= q < j ==> (#[trigger] table@[q]) is Some && table@[q]->0@ == glyph_outline(
                        font_bytes@,
                        self.loca,
                        self.glyf,
                        ng,
                        q,
                    ),
            decreases n - j,
        {
            let o = load_glyph(font_bytes, &self.loca, &self.glyf, ng, j as u32);
            table.push(Some(o));
            j = j + 1;
        }
        self.glyph_data_table = table;
        if self.cmap.subtables.len() == 0 {
            return;
        }
        match &self.cmap.subtables[0] {
            SupportedCmapFormats::Format0 { data, .. } => {
                walk_format0(data, &mut self.glyph_id_table, n);
            },
            SupportedCmapFormats::Format4 { data, .. } => {
                walk_format4(data, &mut self.glyph_id_table, n);
            },
            SupportedCmapFormats::Format6 { data, .. } => {
                walk_format6(data, &mut self.glyph_id_table, n);
            },
            SupportedCmapFormats::Format12 { data, .. } => {
                walk_format12(data, &mut self.glyph_id_table, n);
            },
        }
    }
}

} // verus!
