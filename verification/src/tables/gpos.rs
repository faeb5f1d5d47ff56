//! GPOS pair-adjustment kerning. Modern fonts carry kerning here rather
//! than in the legacy `kern` table.
//!
//! Lookups referenced by the `kern` feature are parsed for pair positioning
//! (lookup type 2, including type-9 extension wrappers):
//! - Format 1 (explicit glyph pairs) is folded straight into the pair map.
//! - Format 2 (class matrices) would explode combinatorially if expanded,
//!   so the compact class structures are kept and resolved at lookup time.

use vstd::prelude::*;
use std::collections::HashMap;
use crate::bytes::{fits, sat, spec_u16, spec_i16, rd16, rdi16, add_off, fits_at};
use crate::tables::otl::{
    ClassDef, Coverage,
    coverage_at, coverage_ok, classdef_at, classdef_ok, u16s_at, triples_at, feature_lookups,
    lookup_list_offset, for_each_subtable, spec_feature_lookups, feature_list_at, tag_value,
    spec_lookup_list_offset, spec_lookup_subtables,
};
use crate::font::{TrueTypeFont, find_table, find_table_index, make_tag, tag_gpos, tag_kern};

verus! {

broadcast use vstd::std_specs::hash::group_hash_axioms;

/// Key of the glyph pair `(left, right)` in a kerning map.
pub open spec fn pair_key(left: u32, right: u32) -> u64 {
    (left as int * 0x1_0000_0000 + right as int) as u64
}

/// Key of the glyph pair `(left, right)` in a kerning map.
pub fn make_pair_key(left: u32, right: u32) -> (r: u64)
    ensures
        r == pair_key(left, right),
{
    (left as u64) * 0x1_0000_0000 + (right as u64)
}

/// One PairPos format-2 subtable, kept compact for lookup-time resolution.
pub struct ClassPairTable {
    pub coverage: Coverage,
    pub class1: ClassDef,
    pub class2: ClassDef,
    pub class1_count: usize,
    pub class2_count: usize,
    /// X-advance adjustment of the first glyph per (class1, class2).
    pub values: Vec<i16>,
}

/// Number of set bits of `v`.
pub open spec fn popcount(v: u16) -> nat
    decreases v,
{
    if v == 0 {
        0
    } else {
        popcount(v / 2) + (v % 2) as nat
    }
}

/// `2^k`.
spec fn two_to(k: nat) -> nat
    decreases k,
{
    if k == 0 {
        1
    } else {
        2 * two_to((k - 1) as nat)
    }
}

proof fn lemma_popcount_le(v: u16, k: nat)
    requires
        v < two_to(k),
    ensures
        popcount(v) <= k,
    decreases k,
{
    if v > 0 {
        lemma_popcount_le(v / 2, (k - 1) as nat);
    }
}

proof fn lemma_popcount_bound(v: u16)
    ensures
        popcount(v) <= 16,
{
    reveal_with_fuel(two_to, 17);
    lemma_popcount_le(v, 16);
}

/// Byte size of a value record for the given value format.
pub fn value_len(vf: u16) -> (r: usize)
    ensures
        r == 2 * popcount(vf),
        r <= 32,
{
    proof {
        lemma_popcount_bound(vf);
    }
    let mut v = vf;
    let mut n: usize = 0;
    while v != 0
        invariant
            n + popcount(v) == popcount(vf),
            popcount(vf) <= 16,
        decreases v,
    {
        n = n + (v % 2) as usize;
        v = v / 2;
    }
    2 * n
}

/// Byte offset of the XAdvance field (bit 0x0004) inside a value record.
pub open spec fn spec_xadvance_offset(vf: u16) -> int {
    ((if vf & 0x0001 != 0 { 1int } else { 0int }) + (if vf & 0x0002 != 0 { 1int } else { 0int }))
        * 2
}

/// Byte offset of the XAdvance field (bit 0x0004) inside a value record.
pub fn xadvance_offset(vf: u16) -> (r: usize)
    ensures
        r == spec_xadvance_offset(vf),
{
    (((vf & 0x0001) != 0) as usize + ((vf & 0x0002) != 0) as usize) * 2
}

impl ClassPairTable {
    /// The table's internal invariant: one value per class pair.
    pub open spec fn wf(&self) -> bool {
        self.values@.len() == self.class1_count * self.class2_count
    }

    /// Kerning value of `(left, right)`: none when the coverage misses
    /// `left`; else the value of the two glyphs' classes, or 0 when a class
    /// lies outside the matrix.
    pub open spec fn spec_lookup(&self, left: u16, right: u16) -> Option<i16> {
        if self.coverage.spec_index_of(left) is None {
            None
        } else {
            let c1 = self.class1.spec_class_of(left) as int;
            let c2 = self.class2.spec_class_of(right) as int;
            if c1 < self.class1_count && c2 < self.class2_count {
                Some(self.values@[c1 * self.class2_count + c2])
            } else {
                Some(0)
            }
        }
    }

    /// Kerning value for a glyph pair, if this subtable covers the left
    /// glyph. `Some(0)` means "covered, no adjustment".
    pub fn lookup(&self, left: u16, right: u16) -> (r: Option<i16>)
        requires
            self.wf(),
        ensures
            r == self.spec_lookup(left, right),
    {
        let cov = self.coverage.index_of(left);
        let c1 = self.class1.class_of(left) as usize;
        let c2 = self.class2.class_of(right) as usize;
        if cov.is_none() {
            None
        } else if c1 < self.class1_count && c2 < self.class2_count {
            let _n = self.values.len();
            proof {
                assert(c1 * self.class2_count + c2 < self.class1_count * self.class2_count) by (nonlinear_arith)
                    requires
                        c1 < self.class1_count,
                        c2 < self.class2_count,
                ;
                assert(c1 * self.class2_count <= c1 * self.class2_count + c2);
            }
            Some(self.values[c1 * self.class2_count + c2])
        } else {
            Some(0)
        }
    }
}

// ---------------------------------------------------------------------------
// PairPos format 1: explicit pairs
// ---------------------------------------------------------------------------

/// The first `j` records of the pair set at `ps` (records `rec_len` bytes
/// long, the value `xadv` bytes into each), inserted for first glyph
/// `first`; zero adjustments are skipped.
pub open spec fn pair_set_apply(
    s: Seq<u8>,
    ps: int,
    rec_len: int,
    xadv: int,
    first: u16,
    m: Map<u64, i16>,
    j: int,
) -> Map<u64, i16>
    decreases j,
{
    if j <= 0 {
        m
    } else {
        let prev = pair_set_apply(s, ps, rec_len, xadv, first, m, j - 1);
        let rec = ps + 2 + (j - 1) * rec_len;
        let v = spec_i16(s, rec + 2 + xadv);
        if v != 0 {
            prev.insert(pair_key(first as u32, spec_u16(s, rec) as u32), v)
        } else {
            prev
        }
    }
}

/// Layout of one PairPos format-1 subtable.
pub struct PairPosLayout {
    /// Offset of the subtable.
    pub off: usize,
    /// Number of pair sets.
    pub pair_set_count: u16,
    /// Length of one pair record.
    pub rec_len: usize,
    /// Offset of the XAdvance value inside a pair record's first value.
    pub xadv: usize,
}

/// The pair set of covered glyph `first` with coverage index `cov_idx`,
/// inserted into `m` (nothing when the index has no pair set or the set
/// runs past the end of `s`).
pub open spec fn entry_apply(s: Seq<u8>, lay: PairPosLayout, m: Map<u64, i16>, first: u16, cov_idx: u16) -> Map<
    u64,
    i16,
> {
    if cov_idx >= lay.pair_set_count {
        m
    } else {
        let ps = sat(lay.off + spec_u16(s, lay.off + 10 + 2 * cov_idx));
        let count = spec_u16(s, ps) as int;
        if !fits(s, ps + 2, count * lay.rec_len) {
            m
        } else {
            pair_set_apply(s, ps, lay.rec_len as int, lay.xadv as int, first, m, count)
        }
    }
}

/// Pair sets of the first `n` glyphs of a format-1 coverage list.
pub open spec fn glyphs_apply(s: Seq<u8>, lay: PairPosLayout, m: Map<u64, i16>, glyphs: Seq<u16>, n: int) -> Map<
    u64,
    i16,
>
    decreases n,
{
    if n <= 0 {
        m
    } else {
        entry_apply(s, lay, glyphs_apply(s, lay, m, glyphs, n - 1), glyphs[n - 1], (n - 1) as u16)
    }
}

/// Pair sets of the first `n` glyphs of the coverage range starting at
/// glyph `start` with coverage index `cov`.
pub open spec fn range_apply(s: Seq<u8>, lay: PairPosLayout, m: Map<u64, i16>, start: u16, cov: u16, n: int) -> Map<
    u64,
    i16,
>
    decreases n,
{
    if n <= 0 {
        m
    } else {
        entry_apply(
            s,
            lay,
            range_apply(s, lay, m, start, cov, n - 1),
            (start + n - 1) as u16,
            cov.wrapping_add((n - 1) as u16),
        )
    }
}

/// Pair sets of the first `n` ranges of a format-2 coverage table.
pub open spec fn ranges_apply(
    s: Seq<u8>,
    lay: PairPosLayout,
    m: Map<u64, i16>,
    ranges: Seq<(u16, u16, u16)>,
    n: int,
) -> Map<u64, i16>
    decreases n,
{
    if n <= 0 {
        m
    } else {
        let prev = ranges_apply(s, lay, m, ranges, n - 1);
        let r = ranges[n - 1];
        if r.1 < r.0 {
            prev
        } else {
            range_apply(s, lay, prev, r.0, r.2, r.1 - r.0 + 1)
        }
    }
}

/// Pair sets of every covered glyph, in coverage order.
pub open spec fn coverage_apply(s: Seq<u8>, lay: PairPosLayout, m: Map<u64, i16>, c: Coverage) -> Map<u64, i16> {
    match c {
        Coverage::Glyphs(g) => glyphs_apply(s, lay, m, g@, g@.len() as int),
        Coverage::Ranges(r) => ranges_apply(s, lay, m, r@, r@.len() as int),
    }
}

/// Inserts the pair set of `first` (coverage index `cov_idx`).
fn apply_entry(b: &[u8], lay: &PairPosLayout, kern: &mut HashMap<u64, i16>, first: u16, cov_idx: u16)
    requires
        lay.rec_len <= 66,
        lay.xadv <= 4,
    ensures
        final(kern)@ == entry_apply(b@, *lay, old(kern)@, first, cov_idx),
{
    if cov_idx >= lay.pair_set_count {
        return;
    }
    let len = b.len();
    let ps = add_off(lay.off, rd16(b, lay.off, 10 + 2 * cov_idx as usize) as usize);
    let count = rd16(b, ps, 0) as usize;
    proof {
        assert(count * lay.rec_len <= 0xFFFF * 66) by (nonlinear_arith)
            requires
                count <= 0xFFFF,
                lay.rec_len <= 66,
        ;
    }
    if !(ps <= len && len - ps >= 2 && count * lay.rec_len <= len - ps - 2) {
        return;
    }
    let ghost m0 = kern@;
    let mut j: usize = 0;
    while j < count
        invariant
            j <= count,
            count == spec_u16(b@, ps as int),
            ps + 2 + count * lay.rec_len <= len,
            len == b@.len(),
            lay.rec_len <= 66,
            lay.xadv <= 4,
            kern@ == pair_set_apply(b@, ps as int, lay.rec_len as int, lay.xadv as int, first, m0, j as int),
        decreases count - j,
    {
        proof {
            assert(j * lay.rec_len <= count * lay.rec_len) by (nonlinear_arith)
                requires
                    j <= count,
            ;
        }
        let rec = ps + 2 + j * lay.rec_len;
        let second = rd16(b, rec, 0);
        let v = rdi16(b, rec, 2 + lay.xadv);
        if v != 0 {
            kern.insert(make_pair_key(first as u32, second as u32), v);
        }
        j = j + 1;
    }
}

/// Inserts the pair sets of every glyph of `cov`.
fn apply_coverage(b: &[u8], lay: &PairPosLayout, kern: &mut HashMap<u64, i16>, cov: &Coverage)
    requires
        lay.rec_len <= 66,
        lay.xadv <= 4,
    ensures
        final(kern)@ == coverage_apply(b@, *lay, old(kern)@, *cov),
{
    let ghost m0 = kern@;
    match cov {
        Coverage::Glyphs(glyphs) => {
            let n = glyphs.len();
            let mut i: usize = 0;
            while i < n
                invariant
                    i <= n,
                    n == glyphs@.len(),
                    lay.rec_len <= 66,
                    lay.xadv <= 4,
                    kern@ == glyphs_apply(b@, *lay, m0, glyphs@, i as int),
                decreases n - i,
            {
                apply_entry(b, lay, kern, glyphs[i], #[verifier::truncate] (i as u16));
                i = i + 1;
            }
        },
        Coverage::Ranges(ranges) => {
            let n = ranges.len();
            let mut i: usize = 0;
            while i < n
                invariant
                    i <= n,
                    n == ranges@.len(),
                    lay.rec_len <= 66,
                    lay.xadv <= 4,
                    kern@ == ranges_apply(b@, *lay, m0, ranges@, i as int),
                decreases n - i,
            {
                let (start, end, cov_start) = ranges[i];
                if end >= start {
                    let ghost before = kern@;
                    let mut g: u32 = start as u32;
                    while g <= end as u32
                        invariant
                            start <= g <= end as u32 + 1,
                            lay.rec_len <= 66,
                            lay.xadv <= 4,
                            kern@ == range_apply(b@, *lay, before, start, cov_start, g - start),
                        decreases end as u32 + 1 - g,
                    {
                        apply_entry(
                            b,
                            lay,
                            kern,
                            g as u16,
                            cov_start.wrapping_add((g - start as u32) as u16),
                        );
                        g = g + 1;
                    }
                }
                i = i + 1;
            }
        },
    }
}

// ---------------------------------------------------------------------------
// PairPos subtables
// ---------------------------------------------------------------------------

/// Size of the value records of the pair positioning subtable at `off`.
pub open spec fn pp_sizes(s: Seq<u8>, off: int) -> (int, int, int) {
    let vf1 = spec_u16(s, off + 4);
    let vf2 = spec_u16(s, off + 6);
    (2 * popcount(vf1) as int, 2 * popcount(vf2) as int, spec_xadvance_offset(vf1))
}

/// The pair positioning subtable at `off` carries an X-advance adjustment
/// of the first glyph and a readable coverage table.
pub open spec fn pp_usable(s: Seq<u8>, off: int) -> bool {
    &&& spec_u16(s, off + 4) & 0x0004 != 0
    &&& coverage_ok(s, sat(off + spec_u16(s, off + 2)))
}

/// The class-matrix subtable at `off` is kept: both class definitions
/// read, and the matrix is non-empty, at most a million cells, and inside `s`.
pub open spec fn pp2_kept(s: Seq<u8>, off: int) -> bool {
    let (sz1, sz2, xadv) = pp_sizes(s, off);
    let cells = spec_u16(s, off + 12) * spec_u16(s, off + 14);
    &&& classdef_ok(s, sat(off + spec_u16(s, off + 8)))
    &&& classdef_ok(s, sat(off + spec_u16(s, off + 10)))
    &&& cells != 0
    &&& cells <= 1_000_000
    &&& fits(s, off + 16, cells * (sz1 + sz2))
}

/// `t` is the class-matrix subtable at `off`.
pub open spec fn pp2_at(s: Seq<u8>, off: int, t: ClassPairTable) -> bool {
    let (sz1, sz2, xadv) = pp_sizes(s, off);
    let c1 = spec_u16(s, off + 12) as int;
    let c2 = spec_u16(s, off + 14) as int;
    &&& coverage_at(s, sat(off + spec_u16(s, off + 2)), t.coverage)
    &&& classdef_at(s, sat(off + spec_u16(s, off + 8)), t.class1)
    &&& classdef_at(s, sat(off + spec_u16(s, off + 10)), t.class2)
    &&& t.class1_count == c1
    &&& t.class2_count == c2
    &&& t.wf()
    &&& forall|i: int|
        0 <= i < c1 * c2 ==> #[trigger] t.values@[i] == spec_i16(s, off + 16 + i * (sz1 + sz2) + xadv)
}

/// Layout of the format-1 pair positioning subtable at `off`.
pub open spec fn pp_layout(s: Seq<u8>, off: usize) -> PairPosLayout {
    PairPosLayout {
        off,
        pair_set_count: spec_u16(s, off + 8),
        rec_len: (2 + pp_sizes(s, off as int).0 + pp_sizes(s, off as int).1) as usize,
        xadv: pp_sizes(s, off as int).2 as usize,
    }
}

/// Pair sets of every glyph covered by the coverage table at `co`, in coverage order.
pub open spec fn coverage_apply_at(s: Seq<u8>, lay: PairPosLayout, m: Map<u64, i16>, co: int) -> Map<u64, i16> {
    let n = spec_u16(s, co + 2) as int;
    if spec_u16(s, co) == 1 {
        glyphs_apply(s, lay, m, u16s_at(s, co + 4, n), n)
    } else {
        ranges_apply(s, lay, m, triples_at(s, co + 4, n), n)
    }
}

/// The explicit pair map after folding in the pair positioning subtable at `off`.
pub open spec fn pp_kern(s: Seq<u8>, off: usize, m: Map<u64, i16>) -> Map<u64, i16> {
    if pp_usable(s, off as int) && spec_u16(s, off as int) == 1 {
        coverage_apply_at(s, pp_layout(s, off), m, sat(off + spec_u16(s, off + 2)))
    } else {
        m
    }
}

/// The pair positioning subtable at `off` is a class matrix that is kept.
pub open spec fn pp_keeps(s: Seq<u8>, off: int) -> bool {
    pp_usable(s, off) && spec_u16(s, off) == 2 && pp2_kept(s, off)
}

/// Folds the pair positioning subtable at `off` into the explicit pair map
/// (format 1) or the class-matrix list (format 2).
pub fn parse_pair_pos(
    b: &[u8],
    off: usize,
    kern: &mut HashMap<u64, i16>,
    class_tables: &mut Vec<ClassPairTable>,
)
    ensures
        final(kern)@ == pp_kern(b@, off, old(kern)@),
        pp_keeps(b@, off as int) ==> final(class_tables)@.len() == old(class_tables)@.len() + 1
            && final(class_tables)@.drop_last() == old(class_tables)@ && pp2_at(
            b@,
            off as int,
            final(class_tables)@.last(),
        ),
        !pp_keeps(b@, off as int) ==> final(class_tables)@ == old(class_tables)@,
{
    let _len = b.len();
    let vf1 = rd16(b, off, 4);
    let vf2 = rd16(b, off, 6);
    if vf1 & 0x0004 == 0 {
        return;
    }
    let sz1 = value_len(vf1);
    let sz2 = value_len(vf2);
    let xadv = xadvance_offset(vf1);
    let coverage = match Coverage::parse(b, add_off(off, rd16(b, off, 2) as usize)) {
        Some(c) => c,
        None => return,
    };
    let fmt = rd16(b, off, 0);
    if fmt == 1 {
        let lay = PairPosLayout {
            off,
            pair_set_count: rd16(b, off, 8),
            rec_len: 2 + sz1 + sz2,
            xadv,
        };
        apply_coverage(b, &lay, kern, &coverage);
        proof {
            assert(lay == pp_layout(b@, off));
        }
    } else if fmt == 2 {
        let class1 = match ClassDef::parse(b, add_off(off, rd16(b, off, 8) as usize)) {
            Some(c) => c,
            None => return,
        };
        let class2 = match ClassDef::parse(b, add_off(off, rd16(b, off, 10) as usize)) {
            Some(c) => c,
            None => return,
        };
        let class1_count = rd16(b, off, 12) as usize;
        let class2_count = rd16(b, off, 14) as usize;
        proof {
            assert(class1_count * class2_count <= 0xFFFF * 0xFFFF) by (nonlinear_arith)
                requires
                    class1_count <= 0xFFFF,
                    class2_count <= 0xFFFF,
            ;
        }
        let cells: u64 = (class1_count as u64) * (class2_count as u64);
        let rec_len = sz1 + sz2;
        if cells == 0 || cells > 1_000_000 {
            return;
        }
        proof {
            assert(cells * rec_len <= 1_000_000 * 64) by (nonlinear_arith)
                requires
                    cells <= 1_000_000,
                    rec_len <= 64,
            ;
        }
        if !fits_at(b, off, 16 + (cells as usize) * rec_len) {
            return;
        }
        let cells = cells as usize;
        let mut values: Vec<i16> = Vec::new();
        let mut i: usize = 0;
        while i < cells
            invariant
                i <= cells,
                cells <= 1_000_000,
                rec_len <= 64,
                xadv <= 4,
                values@.len() == i,
                forall|q: int|
                    0 <= q < i ==> #[trigger] values@[q] == spec_i16(b@, off + 16 + q * rec_len + xadv),
            decreases cells - i,
        {
            proof {
                assert(i * rec_len <= 1_000_000 * 64) by (nonlinear_arith)
                    requires
                        i <= 1_000_000,
                        rec_len <= 64,
                ;
            }
            values.push(rdi16(b, off, 16 + i * rec_len + xadv));
            i = i + 1;
        }
        class_tables.push(
            ClassPairTable { coverage, class1, class2, class1_count, class2_count, values },
        );
    }
}

// ---------------------------------------------------------------------------
// The GPOS walk
// ---------------------------------------------------------------------------

/// The explicit pair map and the offsets of the kept class matrices after
/// the first `n` subtables `es` (type and offset) of a lookup; only pair
/// positioning subtables (type 2) count.
pub open spec fn entries_state(
    s: Seq<u8>,
    es: Seq<(u16, int)>,
    n: int,
    m: Map<u64, i16>,
    offs: Seq<int>,
) -> (Map<u64, i16>, Seq<int>)
    decreases n,
{
    if n <= 0 {
        (m, offs)
    } else {
        let prev = entries_state(s, es, n - 1, m, offs);
        let e = es[n - 1];
        if e.0 == 2 {
            (
                pp_kern(s, e.1 as usize, prev.0),
                if pp_keeps(s, e.1) {
                    prev.1.push(e.1)
                } else {
                    prev.1
                },
            )
        } else {
            prev
        }
    }
}

/// The walk state after the subtables of the first `n` lookups of `lookups`
/// in the lookup list at `ll`.
pub open spec fn lookups_state(
    s: Seq<u8>,
    ll: int,
    lookups: Seq<u16>,
    n: int,
    m: Map<u64, i16>,
    offs: Seq<int>,
) -> (Map<u64, i16>, Seq<int>)
    decreases n,
{
    if n <= 0 {
        (m, offs)
    } else {
        let prev = lookups_state(s, ll, lookups, n - 1, m, offs);
        let es = spec_lookup_subtables(s, ll, lookups[n - 1], 9);
        entries_state(s, es, es.len() as int, prev.0, prev.1)
    }
}

/// Lookups of the `kern` feature of the GPOS table at `g`.
pub open spec fn kern_lookups(s: Seq<u8>, g: int) -> Seq<u16> {
    let fl = feature_list_at(s, g);
    spec_feature_lookups(s, fl, tag_value(tag_kern()), spec_u16(s, fl) as int)
}

/// The walk over every `kern` lookup of the GPOS table at `g`, starting
/// from the explicit pair map `m`.
pub open spec fn gpos_state(s: Seq<u8>, g: int, m: Map<u64, i16>) -> (Map<u64, i16>, Seq<int>) {
    let lookups = kern_lookups(s, g);
    lookups_state(s, spec_lookup_list_offset(s, g), lookups, lookups.len() as int, m, Seq::empty())
}

/// `tables` are the class matrices stored at `offs`, in order.
pub open spec fn matrices_at(s: Seq<u8>, offs: Seq<int>, tables: Seq<ClassPairTable>) -> bool {
    &&& tables.len() == offs.len()
    &&& forall|q: int| 0 <= q < offs.len() ==> #[trigger] pp2_at(s, offs[q], tables[q])
}

impl TrueTypeFont {
    /// Reads the pair kerning of the `kern` feature of the GPOS table, if
    /// there is one: explicit pairs join `kern_table`, class matrices
    /// replace `gpos_kern`.
    pub fn load_gpos_kerning(&mut self, b: &[u8])
        ensures
            find_table(old(self).tables@, tag_gpos()) is None ==> *final(self) == *old(self),
            find_table(old(self).tables@, tag_gpos()) matches Some(i) ==> {
                let st = gpos_state(b@, old(self).tables@[i].offset as int, old(self).kern_table@);
                &&& *final(self) == (TrueTypeFont {
                    kern_table: final(self).kern_table,
                    gpos_kern: final(self).gpos_kern,
                    ..*old(self)
                })
                &&& final(self).kern_table@ == st.0
                &&& matrices_at(b@, st.1, final(self).gpos_kern@)
            },
    {
        let tag = make_tag(0x47, 0x50, 0x4F, 0x53);
        let ti = match find_table_index(&self.tables, &tag) {
            Some(i) => i,
            None => return,
        };
        let gpos = self.tables[ti].offset as usize;
        let kern_tag = make_tag(0x6B, 0x65, 0x72, 0x6E);
        let lookups = feature_lookups(b, gpos, &kern_tag);
        let ll = lookup_list_offset(b, gpos);
        let ghost m0 = self.kern_table@;
        let ghost o0 = *self;
        let mut class_tables: Vec<ClassPairTable> = Vec::new();
        let ghost mut offs: Seq<int> = Seq::empty();
        let mut li: usize = 0;
        while li < lookups.len()
            invariant
                li <= lookups@.len(),
                lookups@ == kern_lookups(b@, gpos as int),
                ll == spec_lookup_list_offset(b@, gpos as int),
                *self == (TrueTypeFont { kern_table: self.kern_table, ..o0 }),
                (self.kern_table@, offs) == lookups_state(b@, ll as int, lookups@, li as int, m0, Seq::empty()),
                matrices_at(b@, offs, class_tables@),
            decreases lookups@.len() - li,
        {
            let subs = for_each_subtable(b, ll, lookups[li], 9);
            let ghost es = spec_lookup_subtables(b@, ll as int, lookups@[li as int], 9);
            let ghost m1 = self.kern_table@;
            let ghost o1 = offs;
            let mut j: usize = 0;
            while j < subs.len()
                invariant
                    j <= subs@.len(),
                    subs@.map_values(|e: (u16, usize)| (e.0, e.1 as int)) == es,
                    *self == (TrueTypeFont { kern_table: self.kern_table, ..o0 }),
                    (self.kern_table@, offs) == entries_state(b@, es, j as int, m1, o1),
                    matrices_at(b@, offs, class_tables@),
                decreases subs@.len() - j,
            {
                let (ty, sub) = subs[j];
                proof {
                    assert(es[j as int] == (ty, sub as int));
                }
                if ty == 2 {
                    let ghost before = class_tables@;
                    parse_pair_pos(b, sub, &mut self.kern_table, &mut class_tables);
                    proof {
                        if pp_keeps(b@, sub as int) {
                            assert forall|q: int| 0 <= q < offs.len() implies #[trigger] pp2_at(
                                b@,
                                offs.push(sub as int)[q],
                                class_tables@[q],
                            ) by {
                                assert(class_tables@[q] == class_tables@.drop_last()[q]);
                                assert(pp2_at(b@, offs[q], before[q]));
                            }
                            offs = offs.push(sub as int);
                            assert(pp2_at(b@, offs[offs.len() - 1], class_tables@[offs.len() - 1]));
                        }
                    }
                }
                j = j + 1;
            }
            proof {
                assert(es.len() == subs@.len());
            }
            li = li + 1;
        }
        self.gpos_kern = class_tables;
    }
}

} // verus!
