//! What the table lookups give, stated directly over the bytes of the font
//! that the tables were read from: glyph metrics, the `cmap` subtables and
//! the choice among them, coverage and class definitions, kerning pairs
//! and class matrices, composite components, point flags and coordinates.

use vstd::prelude::*;
use crate::bytes::{spec_u8, spec_u16, spec_u32, spec_i16};
use crate::tables::hmtx::{HmtxTable, hmtx_at, spec_metrics};
use crate::tables::cmap::{
    CmapFormat0, CmapFormat4, CmapFormat6, CmapFormat12, SupportedCmapFormats, format0_at, format4_at, format4_seg_count,
    format6_at, format12_at, spec_lookup, group_ends, search32, lemma_search32, EncodingRecord, selected,
    supported_format, subtable_at, subtable_offset,
};
use crate::tables::otl::{ClassDef, Coverage, search_pos, lemma_search_pos, sorted_u16, range_ends, is_boundary};
use crate::laws::{segments_ordered, law_pair_keys_distinct};
use crate::tables::kern::{kern_pairs_apply, gpos_first, spec_kerning};
use crate::tables::glyf::{
    CompositeGlyphV, SimpleGlyphV, composite_glyph_at, components_from, component_at, simple_glyph_at, spec_coords,
    spec_flags,
};
use crate::tables::gpos::{ClassPairTable, pair_key, pair_set_apply, pp2_at, popcount, spec_xadvance_offset};

verus! {

/// The metrics of glyph `id` in an `hmtx` table read from `s` at `off`,
/// with `nhm` long metrics for `ng` glyphs: a glyph with a long metric gets
/// its advance width and side bearing; a later glyph of the font gets the
/// advance width of the last long metric and its own side bearing from the
/// array that follows the long metrics; any other glyph gets `(0, 0)`.
pub proof fn law_hmtx_metrics(s: Seq<u8>, off: int, nhm: u16, ng: u16, t: HmtxTable, id: int)
    requires
        hmtx_at(s, off, nhm, ng, t),
        0 <= id,
    ensures
        id < nhm ==> spec_metrics(t.h_metrics@, t.left_side_bearings@, id) == (
            spec_u16(s, off + 4 * id),
            spec_i16(s, off + 4 * id + 2),
        ),
        0 < nhm <= id < ng ==> spec_metrics(t.h_metrics@, t.left_side_bearings@, id) == (
            spec_u16(s, off + 4 * (nhm - 1)),
            spec_i16(s, off + 4 * nhm + 2 * (id - nhm)),
        ),
        (nhm == 0 || ng <= id) && nhm <= id ==> spec_metrics(t.h_metrics@, t.left_side_bearings@, id) == (
            0u16,
            0i16,
        ),
{
    if 0 < nhm {
        assert(t.h_metrics@[nhm - 1].advance_width == spec_u16(s, off + 4 * (nhm - 1)));
    }
    if nhm <= id < ng {
        assert(t.left_side_bearings@[id - nhm] == spec_i16(s, off + 4 * nhm + 2 * (id - nhm)));
    }
}

/// The glyph of code `c` in a format-4 subtable read from `s` at `off`,
/// whose segments are in the prescribed order, when `c` lies in segment
/// `i` (between its start and end codes). With a zero range offset the
/// glyph is `c` plus the segment's id delta, modulo 65536. Otherwise the
/// range offset, counted from where it is itself stored, points at a
/// 16-bit entry of the glyph id array, `2 * (c - start)` bytes on; a zero
/// entry stays the missing glyph, any other gets the id delta added modulo
/// 65536, and a pointer outside the array gives the missing glyph.
#[verifier::spinoff_prover]
pub proof fn law_format4_segment_glyph(
    s: Seq<u8>,
    off: int,
    p: u16,
    e: u16,
    d: CmapFormat4,
    i: int,
    c: u16,
)
    requires
        format4_at(s, off, d),
        segments_ordered(d),
        0 <= i < format4_seg_count(s, off),
        spec_u16(s, off + 16 + 2 * format4_seg_count(s, off) + 2 * i) <= c <= spec_u16(s, off + 14 + 2 * i),
    ensures
        ({
            let sc = format4_seg_count(s, off);
            let delta = spec_i16(s, off + 16 + 4 * sc + 2 * i) as int;
            let ro_at = off + 16 + 6 * sc + 2 * i;
            let ro = spec_u16(s, ro_at) as int;
            let start = spec_u16(s, off + 16 + 2 * sc + 2 * i) as int;
            let at = ro_at + 2 * (ro / 2) + 2 * (c - start);
            let array_start = off + 16 + 8 * sc;
            let array_end = array_start + 2 * ((spec_u16(s, off + 2) - (16 + 8 * sc)) / 2);
            spec_lookup((SupportedCmapFormats::Format4 { platform_id: p, encoding_id: e, data: d }), c as u32)
                == if ro == 0 {
                ((c + delta) % 0x10000) as u32
            } else if array_start <= at < array_end {
                if spec_u16(s, at) == 0 {
                    0u32
                } else {
                    ((spec_u16(s, at) + delta) % 0x10000) as u32
                }
            } else {
                0u32
            }
        }),
{
    let sc = format4_seg_count(s, off);
    let ends = d.end_count@;
    assert(sorted_u16(ends)) by {
        assert forall|a: int, b: int| 0 <= a <= b < ends.len() implies ends[a] <= ends[b] by {
            if a < b {
                assert(ends[a] < d.start_count@[b]);
                assert(d.start_count@[b] <= ends[b]);
            }
        }
    }
    lemma_search_pos(ends, c);
    let b = search_pos(ends, c);
    assert(d.start_count@[i] == spec_u16(s, off + 16 + 2 * sc + 2 * i));
    assert(ends[i] == spec_u16(s, off + 14 + 2 * i));
    if b < i {
        assert(ends[b] < d.start_count@[i]);
    } else if b > i {
        assert(ends[i] <= ends[b - 1]);
    }
    assert(b == i);
    assert(d.id_delta@[i] == spec_i16(s, off + 16 + 4 * sc + 2 * i));
    assert(d.id_range_offset@[i] == spec_u16(s, off + 16 + 6 * sc + 2 * i));
    let ro = d.id_range_offset@[i] as int;
    let idx = ro / 2 + (c - d.start_count@[i]) - (sc - i);
    let at = off + 16 + 6 * sc + 2 * i + 2 * (ro / 2) + 2 * (c - d.start_count@[i]);
    assert(at == off + 16 + 8 * sc + 2 * idx);
    if 0 <= idx < d.glyph_id_array@.len() {
        assert(d.glyph_id_array@[idx] == spec_u16(s, off + 16 + 8 * sc + 2 * idx));
    }
}

/// A code that lies in no segment of a format-4 subtable whose segments
/// are in the prescribed order maps to the missing glyph.
pub proof fn law_format4_gap(p: u16, e: u16, d: CmapFormat4, c: u32)
    requires
        segments_ordered(d),
        d.end_count@.len() == d.seg_count_x2 / 2,
        d.start_count@.len() == d.seg_count_x2 / 2,
        forall|i: int|
            0 <= i < d.seg_count_x2 / 2 ==> !(d.start_count@[i] <= c <= #[trigger] d.end_count@[i]),
    ensures
        spec_lookup((SupportedCmapFormats::Format4 { platform_id: p, encoding_id: e, data: d }), c) == 0,
{
    if c <= 0xFFFF {
        let c16 = c as u16;
        let ends = d.end_count@;
        lemma_search_pos(ends, c16);
        let b = search_pos(ends, c16);
        if b < ends.len() && c16 >= d.start_count@[b] {
            assert(d.start_count@[b] <= c <= d.end_count@[b]);
        }
    }
}

/// The glyph of code `c` in a format-0 subtable read from `s` at `off`:
/// the byte at `6 + c` for a code below 256, else the missing glyph.
pub proof fn law_format0_glyph(s: Seq<u8>, off: int, p: u16, e: u16, d: CmapFormat0, c: u32)
    requires
        format0_at(s, off, d),
    ensures
        spec_lookup((SupportedCmapFormats::Format0 { platform_id: p, encoding_id: e, data: d }), c) == if c < 256 {
            spec_u8(s, off + 6 + c) as u32
        } else {
            0u32
        },
{
}

/// The glyph of code `c` in a format-6 subtable read from `s` at `off`:
/// for a code up to U+FFFF among the `entryCount` codes from `firstCode`
/// on, the 16-bit entry `c - firstCode` of the array stored from byte 10;
/// else the missing glyph.
pub proof fn law_format6_glyph(s: Seq<u8>, off: int, p: u16, e: u16, d: CmapFormat6, c: u32)
    requires
        format6_at(s, off, d),
    ensures
        ({
            let first = spec_u16(s, off + 6) as int;
            let count = spec_u16(s, off + 8) as int;
            spec_lookup((SupportedCmapFormats::Format6 { platform_id: p, encoding_id: e, data: d }), c) == if first
                <= c < first + count && c <= 0xFFFF {
                spec_u16(s, off + 10 + 2 * (c - first)) as u32
            } else {
                0u32
            }
        }),
{
    let first = spec_u16(s, off + 6) as int;
    if first <= c < first + d.entry_count {
        assert(d.glyph_id_array@[c - first] == spec_u16(s, off + 10 + 2 * (c - first)));
    }
}

/// The groups of a format-12 subtable are each non-empty and lie wholly
/// after the previous one.
pub open spec fn groups_sorted(d: CmapFormat12) -> bool {
    let g = d.groups@;
    &&& forall|i: int| 0 <= i < g.len() ==> (#[trigger] g[i]).start_char_code <= g[i].end_char_code
    &&& forall|i: int, j: int|
        0 <= i < j < g.len() ==> (#[trigger] g[i]).end_char_code < (#[trigger] g[j]).start_char_code
}

#[verifier::spinoff_prover]
proof fn lemma_group_is_boundary(d: CmapFormat12, c: u32, k: int)
    requires
        groups_sorted(d),
        0 <= k < d.groups@.len(),
        d.groups@[k].start_char_code <= c <= d.groups@[k].end_char_code,
    ensures
        search32(group_ends(d.groups@), c, 0, d.groups@.len() as int) == k,
{
    let gs = d.groups@;
    let ends = group_ends(gs);
    lemma_search32(ends, c, 0, gs.len() as int);
    let b = search32(ends, c, 0, gs.len() as int);
    if b < k {
        assert(ends[b] == gs[b].end_char_code);
        assert(gs[b].end_char_code < gs[k].start_char_code);
    } else if b > k {
        assert(ends[b - 1] == gs[b - 1].end_char_code);
        if k < b - 1 {
            assert(gs[k].end_char_code < gs[b - 1].start_char_code);
        }
    }
}

/// The glyph of code `c` in a format-12 subtable read from `s` at `off`,
/// whose groups are sorted, when `c` lies in group `k` (the twelve bytes
/// from `16 + 12 * k`: start code, end code, start glyph): the start glyph
/// plus `c - start`, modulo 2^32.
pub proof fn law_format12_glyph(s: Seq<u8>, off: int, p: u16, e: u16, d: CmapFormat12, c: u32, k: int)
    requires
        format12_at(s, off, d),
        groups_sorted(d),
        0 <= k < spec_u32(s, off + 12),
        spec_u32(s, off + 16 + 12 * k) <= c <= spec_u32(s, off + 20 + 12 * k),
    ensures
        spec_lookup((SupportedCmapFormats::Format12 { platform_id: p, encoding_id: e, data: d }), c) == ((spec_u32(
            s,
            off + 24 + 12 * k,
        ) + c - spec_u32(s, off + 16 + 12 * k)) % 0x1_0000_0000) as u32,
{
    assert(d.groups@[k].start_char_code == spec_u32(s, off + 16 + 12 * k));
    lemma_group_is_boundary(d, c, k);
}

/// A code that lies in no group of a format-12 subtable read from `s` at
/// `off`, whose groups are sorted, maps to the missing glyph.
#[verifier::spinoff_prover]
pub proof fn law_format12_gap(s: Seq<u8>, off: int, p: u16, e: u16, d: CmapFormat12, c: u32)
    requires
        format12_at(s, off, d),
        groups_sorted(d),
        forall|k: int|
            0 <= k < spec_u32(s, off + 12) ==> !(spec_u32(s, off + 16 + 12 * k) <= c <= #[trigger] spec_u32(
                s,
                off + 20 + 12 * k,
            )),
    ensures
        spec_lookup((SupportedCmapFormats::Format12 { platform_id: p, encoding_id: e, data: d }), c) == 0,
{
    let gs = d.groups@;
    let len = gs.len() as int;
    let ends = group_ends(gs);
    lemma_search32(ends, c, 0, len);
    let b = search32(ends, c, 0, len);
    if b < len && gs[b].start_char_code <= c <= gs[b].end_char_code {
        assert(gs[b].start_char_code == spec_u32(s, off + 16 + 12 * b));
        assert(gs[b].end_char_code == spec_u32(s, off + 20 + 12 * b));
    }
}

/// The platform and encoding that a parsed subtable serves.
pub open spec fn served(sub: SupportedCmapFormats) -> (u16, u16) {
    match sub {
        SupportedCmapFormats::Format0 { platform_id, encoding_id, .. } => (platform_id, encoding_id),
        SupportedCmapFormats::Format4 { platform_id, encoding_id, .. } => (platform_id, encoding_id),
        SupportedCmapFormats::Format6 { platform_id, encoding_id, .. } => (platform_id, encoding_id),
        SupportedCmapFormats::Format12 { platform_id, encoding_id, .. } => (platform_id, encoding_id),
    }
}

/// Some subtable of a supported format listed by `encs`/`fmts` serves a
/// platform and encoding that `ok` accepts.
pub open spec fn listed(encs: Seq<EncodingRecord>, fmts: Seq<u16>, ok: spec_fn(u16, u16) -> bool) -> bool {
    exists|j: int|
        0 <= j < fmts.len() && supported_format(#[trigger] fmts[j]) && ok(encs[j].platform_id, encs[j].encoding_id)
}

/// Of the subtables of a supported format that a `cmap` table lists, the
/// one kept serves the Unicode platform (0) when any does; else Windows'
/// full repertoire (platform 3, encoding 10) when any does; else Windows'
/// basic plane (3, 1) when any does.
#[verifier::spinoff_prover]
pub proof fn law_cmap_preference(
    s: Seq<u8>,
    cmap_off: int,
    encs: Seq<EncodingRecord>,
    fmts: Seq<u16>,
    result: Seq<SupportedCmapFormats>,
)
    requires
        fmts.len() <= encs.len(),
        selected(s, cmap_off, encs, fmts, Seq::empty(), result),
    ensures
        listed(encs, fmts, |p: u16, e: u16| p == 0) ==> result.len() == 1 && served(result[0]).0 == 0,
        !listed(encs, fmts, |p: u16, e: u16| p == 0) && listed(encs, fmts, |p: u16, e: u16| p == 3 && e == 10)
            ==> result.len() == 1 && served(result[0]) == (3u16, 10u16),
        !listed(encs, fmts, |p: u16, e: u16| p == 0) && !listed(encs, fmts, |p: u16, e: u16| p == 3 && e == 10)
            && listed(encs, fmts, |p: u16, e: u16| p == 3 && e == 1) ==> result.len() == 1 && served(result[0]) == (
            3u16,
            1u16,
        ),
{
    let any = exists|j: int| 0 <= j < fmts.len() && supported_format(#[trigger] fmts[j]);
    if any {
        let j = choose|j: int|
            0 <= j < fmts.len() && supported_format(#[trigger] fmts[j]) && subtable_at(
                s,
                subtable_offset(cmap_off, encs[j]),
                fmts[j],
                encs[j].platform_id,
                encs[j].encoding_id,
                result[0],
            );
        assert(served(result[0]) == (encs[j].platform_id, encs[j].encoding_id));
        if listed(encs, fmts, |p: u16, e: u16| p == 0) {
            let q = choose|q: int|
                0 <= q < fmts.len() && supported_format(#[trigger] fmts[q]) && (|p: u16, e: u16| p == 0)(
                    encs[q].platform_id,
                    encs[q].encoding_id,
                );
            assert(supported_format(fmts[q]));
        } else {
            assert(!(encs[j].platform_id == 0));
            if listed(encs, fmts, |p: u16, e: u16| p == 3 && e == 10) {
                let q = choose|q: int|
                    0 <= q < fmts.len() && supported_format(#[trigger] fmts[q]) && (|p: u16, e: u16| p == 3 && e
                        == 10)(encs[q].platform_id, encs[q].encoding_id);
                assert(supported_format(fmts[q]));
            } else {
                assert(!(encs[j].platform_id == 3 && encs[j].encoding_id == 10));
                if listed(encs, fmts, |p: u16, e: u16| p == 3 && e == 1) {
                    let q = choose|q: int|
                        0 <= q < fmts.len() && supported_format(#[trigger] fmts[q]) && (|p: u16, e: u16| p == 3
                            && e == 1)(encs[q].platform_id, encs[q].encoding_id);
                    assert(supported_format(fmts[q]));
                }
            }
        }
    }
}

/// Ranges `(start, end, value)` that are each non-empty and lie wholly
/// after the previous one.
pub open spec fn ranges_sorted(r: Seq<(u16, u16, u16)>) -> bool {
    &&& forall|i: int| 0 <= i < r.len() ==> (#[trigger] r[i]).0 <= r[i].1
    &&& forall|i: int, j: int| 0 <= i < j < r.len() ==> (#[trigger] r[i]).1 < (#[trigger] r[j]).0
}

/// In sorted ranges, the range that holds `g` is where the search of `g`
/// among the range ends settles; when none holds it, the search settles
/// on no range that holds it.
proof fn lemma_range_found(r: Seq<(u16, u16, u16)>, g: u16)
    requires
        ranges_sorted(r),
    ensures
        forall|k: int| 0 <= k < r.len() && r[k].0 <= g <= #[trigger] r[k].1 ==> search_pos(range_ends(r), g) == k,
        search_pos(range_ends(r), g) < r.len() ==> 0 <= search_pos(range_ends(r), g),
{
    let e = range_ends(r);
    lemma_search_pos(e, g);
    let b = search_pos(e, g);
    assert(is_boundary(e, g, b));
    assert forall|k: int| 0 <= k < r.len() && r[k].0 <= g <= #[trigger] r[k].1 implies b == k by {
        if b < k {
            assert(e[b] == r[b].1);
            assert(r[b].1 < r[k].0);
        } else if b > k {
            assert(e[b - 1] == r[b - 1].1);
            if k < b - 1 {
                assert(r[k].1 < r[b - 1].0);
            }
        }
    }
}

/// A coverage table of sorted ranges covers exactly the glyphs inside its
/// ranges: a glyph in range `k` gets the range's first coverage index plus
/// its distance from the range's start (modulo 2^16); any other glyph is
/// not covered.
pub proof fn law_coverage_ranges(r: Vec<(u16, u16, u16)>, g: u16)
    requires
        ranges_sorted(r@),
    ensures
        forall|k: int|
            0 <= k < r@.len() && r@[k].0 <= g <= #[trigger] r@[k].1 ==> Coverage::Ranges(r).spec_index_of(g)
                == Some(((r@[k].2 + g - r@[k].0) % 0x10000) as u16),
        (forall|k: int| 0 <= k < r@.len() ==> !(r@[k].0 <= g <= #[trigger] r@[k].1)) ==> (Coverage::Ranges(
            r,
        ).spec_index_of(g) is None),
{
    lemma_range_found(r@, g);
}

/// A coverage table listing glyphs in ascending order covers exactly the
/// listed glyphs, each with the index of its first listing.
pub proof fn law_coverage_glyphs(gs: Vec<u16>, g: u16)
    requires
        sorted_u16(gs@),
        gs@.len() <= 0x10000,
    ensures
        forall|k: int|
            0 <= k < gs@.len() && #[trigger] gs@[k] == g && (forall|k2: int| 0 <= k2 < k ==> gs@[k2] != g)
                ==> Coverage::Glyphs(gs).spec_index_of(g) == Some(k as u16),
        (forall|k: int| 0 <= k < gs@.len() ==> #[trigger] gs@[k] != g) ==> (Coverage::Glyphs(gs).spec_index_of(
            g,
        ) is None),
{
    lemma_search_pos(gs@, g);
    let b = search_pos(gs@, g);
    assert forall|k: int|
        0 <= k < gs@.len() && #[trigger] gs@[k] == g && (forall|k2: int| 0 <= k2 < k ==> gs@[k2] != g) implies b
            == k by {
        if b < k {
            assert(gs@[b] >= g);
            assert(gs@[b] <= gs@[k]);
            assert(gs@[b] != g);
        } else if b > k {
            assert(gs@[k] <= gs@[b - 1]);
        }
    }
}

/// A class definition of format 1 gives glyph `start + i` the `i`-th listed
/// class, and every glyph outside the list class 0.
pub proof fn law_classdef_list(start: u16, classes: Vec<u16>, g: u16)
    ensures
        (ClassDef::Fmt1 { start, classes }).spec_class_of(g) == if start <= g < start + classes@.len() {
            classes@[g - start]
        } else {
            0u16
        },
{
}

/// A class definition of sorted ranges gives a glyph in range `k` that
/// range's class, and every glyph outside the ranges class 0.
pub proof fn law_classdef_ranges(ranges: Vec<(u16, u16, u16)>, g: u16)
    requires
        ranges_sorted(ranges@),
    ensures
        forall|k: int|
            0 <= k < ranges@.len() && ranges@[k].0 <= g <= #[trigger] ranges@[k].1 ==> (ClassDef::Fmt2 { ranges }).spec_class_of(g) == ranges@[k].2,
        (forall|k: int| 0 <= k < ranges@.len() ==> !(ranges@[k].0 <= g <= #[trigger] ranges@[k].1))
            ==> (ClassDef::Fmt2 { ranges }).spec_class_of(g) == 0,
{
    lemma_range_found(ranges@, g);
}

/// Pair `j` of the format-0 `kern` subtable at `o` names glyphs `l` and `r`.
pub open spec fn kern_pair_names(s: Seq<u8>, o: int, j: int, l: u16, r: u16) -> bool {
    spec_u16(s, o + 14 + 6 * j) == l && spec_u16(s, o + 16 + 6 * j) == r
}

/// Reading the first `n` pairs of the format-0 `kern` subtable at `o` into
/// `m`: a glyph pair listed there gets the value stored with its last
/// listing (the six bytes from `14 + 6 * j`: left, right, value); any other
/// pair keeps what `m` held.
#[verifier::spinoff_prover]
#[verifier::rlimit(40)]
pub proof fn law_kern_pairs(s: Seq<u8>, o: int, m: Map<u64, i16>, n: int, l: u16, r: u16)
    requires
        0 <= n,
    ensures
        forall|j: int|
            0 <= j < n && #[trigger] kern_pair_names(s, o, j, l, r) && (forall|j2: int|
                j < j2 < n ==> !kern_pair_names(s, o, j2, l, r)) ==> kern_pairs_apply(s, o, m, n).contains_key(
                pair_key(l as u32, r as u32),
            ) && kern_pairs_apply(s, o, m, n)[pair_key(l as u32, r as u32)] == spec_i16(s, o + 18 + 6 * j),
        (forall|j: int| 0 <= j < n ==> !#[trigger] kern_pair_names(s, o, j, l, r)) ==> kern_pairs_apply(
            s,
            o,
            m,
            n,
        ).contains_key(pair_key(l as u32, r as u32)) == m.contains_key(pair_key(l as u32, r as u32))
            && kern_pairs_apply(s, o, m, n)[pair_key(l as u32, r as u32)] == m[pair_key(l as u32, r as u32)],
    decreases n,
{
    if n > 0 {
        law_kern_pairs(s, o, m, n - 1, l, r);
        let p = o + 14 + 6 * (n - 1);
        let k = pair_key(l as u32, r as u32);
        law_pair_keys_distinct(spec_u16(s, p) as u32, spec_u16(s, p + 2) as u32, l as u32, r as u32);
        assert forall|j: int|
            0 <= j < n && #[trigger] kern_pair_names(s, o, j, l, r) && (forall|j2: int|
                j < j2 < n ==> !kern_pair_names(s, o, j2, l, r)) implies kern_pairs_apply(s, o, m, n).contains_key(k)
            && kern_pairs_apply(s, o, m, n)[k] == spec_i16(s, o + 18 + 6 * j) by {
            if j < n - 1 {
                assert(!kern_pair_names(s, o, n - 1, l, r));
            }
        }
        if forall|j: int| 0 <= j < n ==> !#[trigger] kern_pair_names(s, o, j, l, r) {
            assert(!kern_pair_names(s, o, n - 1, l, r));
        }
    }
}

/// Record `j` of the pair set at `ps` (records `rec_len` bytes long after
/// a 2-byte count) names second glyph `r` and gives it a non-zero X advance
/// (`xadv` bytes into its first value record).
pub open spec fn pair_record_kerns(s: Seq<u8>, ps: int, rec_len: int, xadv: int, j: int, r: u16) -> bool {
    let rec = ps + 2 + j * rec_len;
    spec_u16(s, rec) == r && spec_i16(s, rec + 2 + xadv) != 0
}

/// Reading the first `n` records of the pair set of first glyph `f` into
/// `m`: the pair `(f, r)` gets the X advance of the last record that names
/// `r` with a non-zero value; with no such record it keeps what `m` held.
#[verifier::spinoff_prover]
#[verifier::rlimit(40)]
pub proof fn law_pair_set(s: Seq<u8>, ps: int, rec_len: int, xadv: int, f: u16, m: Map<u64, i16>, n: int, r: u16)
    requires
        0 <= n,
    ensures
        forall|j: int|
            0 <= j < n && #[trigger] pair_record_kerns(s, ps, rec_len, xadv, j, r) && (forall|j2: int|
                j < j2 < n ==> !pair_record_kerns(s, ps, rec_len, xadv, j2, r)) ==> pair_set_apply(
                s,
                ps,
                rec_len,
                xadv,
                f,
                m,
                n,
            ).contains_key(pair_key(f as u32, r as u32)) && pair_set_apply(s, ps, rec_len, xadv, f, m, n)[pair_key(
                f as u32,
                r as u32,
            )] == spec_i16(s, ps + 2 + j * rec_len + 2 + xadv),
        (forall|j: int| 0 <= j < n ==> !#[trigger] pair_record_kerns(s, ps, rec_len, xadv, j, r)) ==> pair_set_apply(
            s,
            ps,
            rec_len,
            xadv,
            f,
            m,
            n,
        ).contains_key(pair_key(f as u32, r as u32)) == m.contains_key(pair_key(f as u32, r as u32))
            && pair_set_apply(s, ps, rec_len, xadv, f, m, n)[pair_key(f as u32, r as u32)] == m[pair_key(
            f as u32,
            r as u32,
        )],
    decreases n,
{
    if n > 0 {
        law_pair_set(s, ps, rec_len, xadv, f, m, n - 1, r);
        let rec = ps + 2 + (n - 1) * rec_len;
        law_pair_keys_distinct(f as u32, spec_u16(s, rec) as u32, f as u32, r as u32);
        assert forall|j: int|
            0 <= j < n && #[trigger] pair_record_kerns(s, ps, rec_len, xadv, j, r) && (forall|j2: int|
                j < j2 < n ==> !pair_record_kerns(s, ps, rec_len, xadv, j2, r)) implies pair_set_apply(
            s,
            ps,
            rec_len,
            xadv,
            f,
            m,
            n,
        ).contains_key(pair_key(f as u32, r as u32)) && pair_set_apply(s, ps, rec_len, xadv, f, m, n)[pair_key(
            f as u32,
            r as u32,
        )] == spec_i16(s, ps + 2 + j * rec_len + 2 + xadv) by {
            if j < n - 1 {
                assert(!pair_record_kerns(s, ps, rec_len, xadv, n - 1, r));
            }
        }
        if forall|j: int| 0 <= j < n ==> !#[trigger] pair_record_kerns(s, ps, rec_len, xadv, j, r) {
            assert(!pair_record_kerns(s, ps, rec_len, xadv, n - 1, r));
        }
    }
}

/// Matrix `t` covers `l` and gives the pair `(l, r)` a non-zero value.
pub open spec fn kerns(t: ClassPairTable, l: u16, r: u16) -> bool {
    t.spec_lookup(l, r) matches Some(v) && v != 0
}

/// The class-matrix kerning of a glyph pair is the value of the first
/// matrix (in order) that covers the left glyph and gives the pair a
/// non-zero value; none when no matrix does.
pub proof fn law_first_matrix_wins(tables: Seq<ClassPairTable>, l: u16, r: u16, n: int)
    requires
        0 <= n <= tables.len(),
    ensures
        forall|q: int|
            0 <= q < n && #[trigger] kerns(tables[q], l, r) && (forall|q2: int| 0 <= q2 < q ==> !kerns(tables[q2], l, r))
                ==> gpos_first(tables, l, r, n) == tables[q].spec_lookup(l, r),
        (forall|q: int| 0 <= q < n ==> !#[trigger] kerns(tables[q], l, r)) ==> (gpos_first(tables, l, r, n) is None),
    decreases n,
{
    if n > 0 {
        law_first_matrix_wins(tables, l, r, n - 1);
        assert forall|q: int|
            0 <= q < n && #[trigger] kerns(tables[q], l, r) && (forall|q2: int| 0 <= q2 < q ==> !kerns(tables[q2], l, r))
                implies gpos_first(tables, l, r, n) == tables[q].spec_lookup(l, r) by {
            if q < n - 1 {
                assert(gpos_first(tables, l, r, n - 1) == tables[q].spec_lookup(l, r));
            } else {
                if gpos_first(tables, l, r, n - 1) is Some {
                    lemma_first_matrix_source(tables, l, r, n - 1);
                }
            }
        }
        if forall|q: int| 0 <= q < n ==> !#[trigger] kerns(tables[q], l, r) {
            assert(!kerns(tables[n - 1], l, r));
        }
    }
}

proof fn lemma_first_matrix_source(tables: Seq<ClassPairTable>, l: u16, r: u16, n: int)
    requires
        0 <= n <= tables.len(),
        gpos_first(tables, l, r, n) is Some,
    ensures
        exists|q: int| 0 <= q < n && #[trigger] kerns(tables[q], l, r),
    decreases n,
{
    if n > 0 {
        if gpos_first(tables, l, r, n - 1) is Some {
            lemma_first_matrix_source(tables, l, r, n - 1);
        } else {
            assert(kerns(tables[n - 1], l, r));
        }
    }
}

/// The kerning of a glyph pair: the explicit pair's value when the pair
/// map holds one; else the first class matrix's non-zero value, as above.
pub proof fn law_explicit_pairs_first(kern: Map<u64, i16>, tables: Seq<ClassPairTable>, l: u32, r: u32)
    ensures
        kern.contains_key(pair_key(l, r)) ==> spec_kerning(kern, tables, l, r) == Some(kern[pair_key(l, r)]),
        !kern.contains_key(pair_key(l, r)) ==> spec_kerning(kern, tables, l, r) == gpos_first(
            tables,
            (l % 0x10000) as u16,
            (r % 0x10000) as u16,
            tables.len() as int,
        ),
{
}

/// The kerning that a class-matrix subtable read from `s` at `off` gives a
/// glyph pair: none when the coverage misses the left glyph; else, when the
/// left glyph's class `c1` and the right glyph's class `c2` lie inside the
/// matrix, the X-advance field of the value record in row `c1`, column
/// `c2` of the matrix stored from byte 16 of the subtable (rows of
/// `class2Count` records, each as long as the two value formats ask);
/// else 0.
#[verifier::spinoff_prover]
pub proof fn law_class_matrix_cell(s: Seq<u8>, off: int, t: ClassPairTable, left: u16, right: u16)
    requires
        pp2_at(s, off, t),
    ensures
        ({
            let c1 = t.class1.spec_class_of(left) as int;
            let c2 = t.class2.spec_class_of(right) as int;
            let n1 = spec_u16(s, off + 12) as int;
            let n2 = spec_u16(s, off + 14) as int;
            let rec = 2 * popcount(spec_u16(s, off + 4)) + 2 * popcount(spec_u16(s, off + 6));
            let row = off + 16 + c1 * (n2 * rec);
            t.spec_lookup(left, right) == if t.coverage.spec_index_of(left) is None {
                None
            } else if c1 < n1 && c2 < n2 {
                Some(spec_i16(s, row + c2 * rec + spec_xadvance_offset(spec_u16(s, off + 4))))
            } else {
                Some(0i16)
            }
        }),
{
    let c1 = t.class1.spec_class_of(left) as int;
    let c2 = t.class2.spec_class_of(right) as int;
    let n1 = spec_u16(s, off + 12) as int;
    let n2 = spec_u16(s, off + 14) as int;
    let rec = 2 * popcount(spec_u16(s, off + 4)) + 2 * popcount(spec_u16(s, off + 6));
    if c1 < n1 && c2 < n2 {
        let k = c1 * n2 + c2;
        assert(0 <= k < n1 * n2) by (nonlinear_arith)
            requires
                0 <= c1 < n1,
                0 <= c2 < n2,
                k == c1 * n2 + c2,
        ;
        assert(k * rec == c1 * (n2 * rec) + c2 * rec) by (nonlinear_arith)
            requires
                k == c1 * n2 + c2,
        ;
        assert(t.values@[k] == spec_i16(
            s,
            off + 16 + k * rec + spec_xadvance_offset(spec_u16(s, off + 4)),
        ));
    }
}

/// Byte length of a component record whose flags are `flags`: flags and
/// glyph index, two arguments of one byte each or (bit 0) of two, and a
/// transform of one (bit 3), two (bit 6) or four (bit 7) 16-bit values.
pub open spec fn record_len(flags: u16) -> int {
    4 + (if flags & 0x0001 != 0 { 4int } else { 2int }) + if flags & 0x0008 != 0 {
        2int
    } else if flags & 0x0040 != 0 {
        4int
    } else if flags & 0x0080 != 0 {
        8int
    } else {
        0int
    }
}

/// Where the `k`-th of the component records stored back to back from `o`
/// starts.
pub open spec fn record_start(s: Seq<u8>, o: int, k: nat) -> int
    decreases k,
{
    if k == 0 {
        o
    } else {
        record_start(s, o + record_len(spec_u16(s, o)), (k - 1) as nat)
    }
}

/// Component `c` holds the flags, glyph index, arguments and transform of
/// the record at `o`: the transform's 16-bit values follow the arguments,
/// one uniform scale (bit 3), else an x and a y scale (bit 6), else a
/// two-by-two matrix of x scale, two cross terms and y scale (bit 7).
pub open spec fn component_read_from(s: Seq<u8>, o: int, c: crate::tables::glyf::CompositeComponent) -> bool {
    let f = spec_u16(s, o);
    let words = f & 0x0001 != 0;
    let a = o + if words { 8int } else { 6int };
    let one = f & 0x0008 != 0;
    let two = !one && f & 0x0040 != 0;
    let four = !one && !two && f & 0x0080 != 0;
    &&& c.flags == f
    &&& c.glyph_index == spec_u16(s, o + 2)
    &&& c.argument1 == if words { spec_i16(s, o + 4) } else { (s[o + 4] as i8) as i16 }
    &&& c.argument2 == if words { spec_i16(s, o + 6) } else { (s[o + 5] as i8) as i16 }
    &&& c.scale == if one { Some(spec_i16(s, a)) } else { None }
    &&& c.x_scale == if two || four { Some(spec_i16(s, a)) } else { None }
    &&& c.y_scale == if two { Some(spec_i16(s, a + 2)) } else if four { Some(spec_i16(s, a + 6)) } else { None }
    &&& c.scale_01 == if four { Some(spec_i16(s, a + 2)) } else { None }
    &&& c.scale_10 == if four { Some(spec_i16(s, a + 4)) } else { None }
}

#[verifier::spinoff_prover]
proof fn lemma_components(s: Seq<u8>, o: int)
    ensures
        components_from(s, o) matches Some((cs, e)) ==> {
            &&& cs.len() >= 1
            &&& forall|k: int|
                0 <= k < cs.len() ==> component_read_from(s, record_start(s, o, k as nat), #[trigger] cs[k])
            &&& forall|k: int| 0 <= k < cs.len() ==> ((#[trigger] cs[k]).flags & 0x0020 != 0 <==> k < cs.len() - 1)
            &&& record_start(s, o, cs.len()) == e
        },
    decreases (if 0 <= o < s.len() { s.len() - o } else { 0 }),
{
    if let Some((c, p)) = component_at(s, o) {
        assert(p == o + record_len(spec_u16(s, o)));
        assert(0 <= o < s.len() && o < p);
        if c.flags & 0x0020 != 0 {
            lemma_components(s, p);
            if let Some((rest, e)) = components_from(s, p) {
                let cs = seq![c] + rest;
                assert(components_from(s, o) == Some((cs, e)));
                assert forall|k: int| 0 <= k < cs.len() implies component_read_from(
                    s,
                    record_start(s, o, k as nat),
                    #[trigger] cs[k],
                ) && (cs[k].flags & 0x0020 != 0 <==> k < cs.len() - 1) by {
                    if k > 0 {
                        assert(record_start(s, o, k as nat) == record_start(s, p, (k - 1) as nat));
                        assert(cs[k] == rest[k - 1]);
                    }
                }
                assert(record_start(s, o, cs.len()) == record_start(s, p, rest.len()));
            }
        } else {
            assert(record_start(s, o, 1) == record_start(s, p, 0));
        }
    }
}

/// The components of a composite glyph read from `s` at `g` are the
/// records stored back to back from byte 10 of the glyph, up to and
/// including the first one whose flags lack `MORE_COMPONENTS` (bit 5):
/// there is at least one, every one but the last has that bit, and each
/// holds the flags, glyph index, arguments and transform of its record.
pub proof fn law_composite_components(s: Seq<u8>, g: int, v: CompositeGlyphV)
    requires
        composite_glyph_at(s, g) == Some(v),
    ensures
        v.components.len() >= 1,
        forall|k: int|
            0 <= k < v.components.len() ==> component_read_from(
                s,
                record_start(s, g + 10, k as nat),
                #[trigger] v.components[k],
            ),
        forall|k: int|
            0 <= k < v.components.len() ==> ((#[trigger] v.components[k]).flags & 0x0020 != 0 <==> k
                < v.components.len() - 1),
{
    lemma_components(s, g + 10);
}

/// Reading the flags of `n > 0` points from `o`: the first flag is the byte
/// at `o`. With its repeat bit (bit 3) the byte after it counts further
/// copies of it, and reading goes on two bytes on for the points left;
/// without, reading goes on at the next byte for the other points.
pub proof fn law_point_flags(s: Seq<u8>, o: int, n: int, fl: Seq<u8>, e: int)
    requires
        n > 0,
        spec_flags(s, o, n) == Some((fl, e)),
    ensures
        0 <= o < s.len(),
        fl.len() >= 1 && fl[0] == s[o],
        s[o] & 0x08 != 0 ==> {
            &&& o + 1 < s.len()
            &&& fl.len() > s[o + 1]
            &&& forall|k: int| 1 <= k <= s[o + 1] ==> #[trigger] fl[k] == s[o]
            &&& spec_flags(s, o + 2, n - 1 - s[o + 1]) == Some((fl.skip(1 + s[o + 1]), e))
        },
        s[o] & 0x08 == 0 ==> spec_flags(s, o + 1, n - 1) == Some((fl.skip(1), e)),
{
    let f = s[o];
    if f & 0x08 != 0 {
        let rc = s[o + 1];
        if let Some((rest, e2)) = spec_flags(s, o + 2, n - 1 - rc) {
            assert(fl == seq![f] + Seq::new(rc as nat, |k: int| f) + rest);
            assert(fl.skip(1 + rc) =~= rest);
        }
    } else {
        if let Some((rest, e2)) = spec_flags(s, o + 1, n - 1) {
            assert(fl == seq![f] + rest);
            assert(fl.skip(1) =~= rest);
        }
    }
}

/// Bytes that the delta of a point with flag `f` takes on one axis: one
/// with the axis's short-vector bit `short`; else none with its
/// same-or-positive bit `same` (the coordinate repeats), and two without.
pub open spec fn delta_len(f: u8, short: u8, same: u8) -> int {
    if f & short != 0 {
        1
    } else if f & same == 0 {
        2
    } else {
        0
    }
}

/// Bytes that the deltas of points `i..j` take on one axis.
pub open spec fn deltas_len(flags: Seq<u8>, i: int, j: int, short: u8, same: u8) -> int
    decreases j - i,
{
    if j <= i {
        0
    } else {
        delta_len(flags[i], short, same) + deltas_len(flags, i + 1, j, short, same)
    }
}

/// Coordinate `x` of a point with flag `f`, whose delta is stored at `p`,
/// follows from the previous coordinate `prev`, modulo 2^16: a short delta
/// is the unsigned byte at `p`, added with the same-or-positive bit and
/// subtracted without it; a long delta is the signed 16-bit value at `p`;
/// with neither, the coordinate repeats.
#[verifier::opaque]
pub open spec fn coord_step(s: Seq<u8>, p: int, f: u8, short: u8, same: u8, prev: i16, x: i16) -> bool {
    if f & short != 0 {
        if f & same != 0 {
            (x - prev - s[p]) % 0x10000 == 0
        } else {
            (x - prev + s[p]) % 0x10000 == 0
        }
    } else if f & same == 0 {
        (x - prev - spec_i16(s, p)) % 0x10000 == 0
    } else {
        x == prev
    }
}

/// The coordinates `cs` of points `i..n` on one axis, from running value
/// `cur`, each follow from the one before by the delta stored for it, the
/// deltas lying back to back from `o`.
pub open spec fn axis_follows(
    s: Seq<u8>,
    o: int,
    flags: Seq<u8>,
    i: int,
    n: int,
    cur: i16,
    short: u8,
    same: u8,
    cs: Seq<i16>,
) -> bool {
    &&& cs.len() == n - i
    &&& forall|j: int|
        0 <= j < n - i ==> coord_step(
            s,
            o + deltas_len(flags, i, i + j, short, same),
            flags[i + j],
            short,
            same,
            if j == 0 {
                cur
            } else {
                cs[j - 1]
            },
            #[trigger] cs[j],
        )
}

proof fn lemma_wrap(cur: i16, d: i16)
    ensures
        (cur.wrapping_add(d) - cur - d) % 0x10000 == 0,
        (cur.wrapping_sub(d) - cur + d) % 0x10000 == 0,
{
}

/// The coordinate after `cur` for a point with flag `f` whose delta is at `o`.
#[verifier::opaque]
spec fn next_coord(s: Seq<u8>, o: int, f: u8, short: u8, same: u8, cur: i16) -> i16 {
    if f & short != 0 {
        if f & same != 0 {
            cur.wrapping_add(s[o] as i16)
        } else {
            cur.wrapping_sub(s[o] as i16)
        }
    } else if f & same == 0 {
        cur.wrapping_add(spec_i16(s, o))
    } else {
        cur
    }
}

proof fn lemma_step(s: Seq<u8>, o: int, f: u8, short: u8, same: u8, cur: i16)
    requires
        f & short != 0 ==> 0 <= o < s.len(),
    ensures
        coord_step(s, o, f, short, same, cur, next_coord(s, o, f, short, same, cur)),
{
    reveal(coord_step);
    reveal(next_coord);
    if f & short != 0 {
        lemma_wrap(cur, s[o] as i16);
    } else if f & same == 0 {
        lemma_wrap(cur, spec_i16(s, o));
    }
}

proof fn lemma_coords_unfold(s: Seq<u8>, o: int, flags: Seq<u8>, i: int, n: int, cur: i16, short: u8, same: u8)
    requires
        i < n,
        spec_coords(s, o, flags, i, n, cur, short, same) is Some,
    ensures
        flags[i] & short != 0 ==> 0 <= o < s.len(),
        spec_coords(s, o, flags, i, n, cur, short, same) == match spec_coords(
            s,
            o + delta_len(flags[i], short, same),
            flags,
            i + 1,
            n,
            next_coord(s, o, flags[i], short, same, cur),
            short,
            same,
        ) {
            Some((r, e)) => Some((seq![next_coord(s, o, flags[i], short, same, cur)] + r, e)),
            None => None::<(Seq<i16>, int)>,
        },
{
    reveal(next_coord);
}

#[verifier::spinoff_prover]
proof fn lemma_axis_cons(
    s: Seq<u8>,
    o: int,
    flags: Seq<u8>,
    i: int,
    n: int,
    cur: i16,
    short: u8,
    same: u8,
    c2: i16,
    rest: Seq<i16>,
)
    requires
        0 <= i < n,
        coord_step(s, o, flags[i], short, same, cur, c2),
        axis_follows(s, o + delta_len(flags[i], short, same), flags, i + 1, n, c2, short, same, rest),
    ensures
        axis_follows(s, o, flags, i, n, cur, short, same, seq![c2] + rest),
{
    let cs = seq![c2] + rest;
    let o2 = o + delta_len(flags[i], short, same);
    assert forall|j: int| 0 <= j < n - i implies coord_step(
        s,
        o + deltas_len(flags, i, i + j, short, same),
        flags[i + j],
        short,
        same,
        if j == 0 {
            cur
        } else {
            cs[j - 1]
        },
        #[trigger] cs[j],
    ) by {
        if j > 0 {
            let jj = j - 1;
            assert(cs[j] == rest[jj]);
            assert(deltas_len(flags, i, i + j, short, same) == delta_len(flags[i], short, same) + deltas_len(
                flags,
                i + 1,
                i + 1 + jj,
                short,
                same,
            ));
            assert(coord_step(
                s,
                o2 + deltas_len(flags, i + 1, i + 1 + jj, short, same),
                flags[i + 1 + jj],
                short,
                same,
                if jj == 0 {
                    c2
                } else {
                    rest[jj - 1]
                },
                rest[jj],
            ));
            if j > 1 {
                assert(cs[j - 1] == rest[jj - 1]);
            }
        }
    }
}

#[verifier::spinoff_prover]
proof fn lemma_coords(s: Seq<u8>, o: int, flags: Seq<u8>, i: int, n: int, cur: i16, short: u8, same: u8)
    requires
        0 <= i <= n,
    ensures
        spec_coords(s, o, flags, i, n, cur, short, same) matches Some((cs, e)) ==> axis_follows(
            s,
            o,
            flags,
            i,
            n,
            cur,
            short,
            same,
            cs,
        ) && e == o + deltas_len(flags, i, n, short, same),
    decreases n - i,
{
    if i < n && spec_coords(s, o, flags, i, n, cur, short, same) is Some {
        let f = flags[i];
        let o2 = o + delta_len(f, short, same);
        let c2 = next_coord(s, o, f, short, same, cur);
        lemma_coords_unfold(s, o, flags, i, n, cur, short, same);
        lemma_coords(s, o2, flags, i + 1, n, c2, short, same);
        lemma_step(s, o, f, short, same, cur);
        if let Some((rest, e2)) = spec_coords(s, o2, flags, i + 1, n, c2, short, same) {
            lemma_axis_cons(s, o, flags, i, n, cur, short, same, c2, rest);
        }
    }
}

/// The coordinates of a simple glyph read from `s` at `g` (a record with a
/// contour count of zero or more). Its points are
/// counted by the last contour end point, its flags follow the
/// instructions, and the x deltas then the y deltas follow the flags, each
/// axis's deltas back to back. Every x coordinate (short-vector bit 1,
/// same-or-positive bit 4) and every y coordinate (bits 2 and 5) follows
/// from the one before (0 before the first) by the delta stored for it:
/// a short delta byte is added with the same-or-positive bit and
/// subtracted without it.
#[verifier::spinoff_prover]
pub proof fn law_simple_glyph_coordinates(s: Seq<u8>, g: int, v: SimpleGlyphV)
    requires
        s.len() <= usize::MAX,
        spec_i16(s, g) >= 0,
        simple_glyph_at(s, g) == Some(v),
    ensures
        ({
            let nc = spec_i16(s, g) as int;
            let np = if nc <= 0 {
                0
            } else {
                spec_u16(s, g + 10 + 2 * (nc - 1)) + 1
            };
            let fo = g + 12 + 2 * nc + spec_u16(s, g + 10 + 2 * nc);
            match spec_flags(s, fo, np) {
                Some((fl, xo)) => {
                    &&& v.flags == fl
                    &&& axis_follows(s, xo, fl, 0, np, 0, 0x02, 0x10, v.xs)
                    &&& axis_follows(s, xo + deltas_len(fl, 0, np, 0x02, 0x10), fl, 0, np, 0, 0x04, 0x20, v.ys)
                },
                None => false,
            }
        }),
{
    let nc = spec_i16(s, g) as int;
    let np = if nc <= 0 {
        0
    } else {
        spec_u16(s, g + 10 + 2 * (nc - 1)) + 1
    };
    let ep = Seq::new(nc as nat, |k: int| spec_u16(s, g + 10 + 2 * k));
    if nc > 0 {
        assert(ep.last() == spec_u16(s, g + 10 + 2 * (nc - 1)));
    }
    let fo = g + 12 + 2 * nc + spec_u16(s, g + 10 + 2 * nc);
    assert(crate::tables::glyf::num_points_of(ep) == np);
    assert(crate::bytes::sat(g + 12 + 2 * nc) == g + 12 + 2 * nc);
    assert(spec_flags(s, fo, np) is Some);
    if let Some((fl, xo)) = spec_flags(s, fo, np) {
        lemma_coords(s, xo, fl, 0, np, 0, 0x02, 0x10);
        if let Some((xs, yo)) = spec_coords(s, xo, fl, 0, np, 0, 0x02, 0x10) {
            lemma_coords(s, yo, fl, 0, np, 0, 0x04, 0x20);
        }
    }
}

} // verus!
