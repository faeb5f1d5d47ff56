//! Shared OpenType layout-table machinery (GPOS/GSUB): coverage tables,
//! class definitions, and lookup-list walking with extension resolution.
//! Every read goes through the bounds-checked readers, loop counts come
//! from 16-bit fields, and malformed structures degrade to "no data".
//!
//! Searches use binary search; on sorted arrays (as the format requires)
//! it finds the first element not below the key.

use vstd::prelude::*;
use crate::bytes::{fits, sat, spec_u16, spec_u32, rd16, rd32, add_off, fits_at};

verus! {

/// `s` is sorted ascending.
pub open spec fn sorted_u16(s: Seq<u16>) -> bool {
    forall|i: int, j: int| 0 <= i <= j < s.len() ==> s[i] <= s[j]
}

/// `i` is a search boundary for `c` in `s`: everything before it is
/// smaller than `c` and the element at it (if any) is not.
pub open spec fn is_boundary(s: Seq<u16>, c: u16, i: int) -> bool {
    &&& 0 <= i <= s.len()
    &&& (i == s.len() || s[i] >= c)
    &&& (i == 0 || s[i - 1] < c)
}

/// In a sorted sequence the search boundary is unique.
pub proof fn lemma_boundary_unique(s: Seq<u16>, c: u16, i: int, j: int)
    requires
        sorted_u16(s),
        is_boundary(s, c, i),
        is_boundary(s, c, j),
    ensures
        i == j,
{
    if i < j {
        assert(s[i] <= s[j - 1]);
    } else if j < i {
        assert(s[j] <= s[i - 1]);
    }
}

/// Index of the first element of `s` that is not below `c` (`s.len()` if none).
pub open spec fn first_at_least(s: Seq<u16>, c: u16) -> int
    decreases s.len(),
{
    if s.len() == 0 {
        0
    } else if s[0] >= c {
        0
    } else {
        1 + first_at_least(s.drop_first(), c)
    }
}

/// In a sorted sequence the first element not below `c` is a search boundary of `c`.
pub proof fn lemma_first_at_least_boundary(s: Seq<u16>, c: u16)
    requires
        sorted_u16(s),
    ensures
        is_boundary(s, c, first_at_least(s, c)),
    decreases s.len(),
{
    if s.len() > 0 && s[0] < c {
        let t = s.drop_first();
        assert(sorted_u16(t)) by {
            assert forall|i: int, j: int| 0 <= i <= j < t.len() implies t[i] <= t[j] by {
                assert(t[i] == s[i + 1] && t[j] == s[j + 1]);
            }
        }
        lemma_first_at_least_boundary(t, c);
        let k = first_at_least(t, c);
        if k > 0 {
            assert(t[k - 1] == s[k]);
        }
        if k < t.len() {
            assert(t[k] == s[k + 1]);
        }
    }
}

/// In a sorted sequence the search boundary is the first element not below `c`.
pub proof fn lemma_boundary_is_first(s: Seq<u16>, c: u16, i: int)
    requires
        sorted_u16(s),
        is_boundary(s, c, i),
    ensures
        i == first_at_least(s, c),
{
    lemma_first_at_least_boundary(s, c);
    lemma_boundary_unique(s, c, i, first_at_least(s, c));
}

/// Where a halving search for `c` in `s[lo..hi]` settles: it probes the
/// middle and keeps the upper half when the probe is below `c`, else the
/// lower half.
pub open spec fn search16(s: Seq<u16>, c: u16, lo: int, hi: int) -> int
    decreases hi - lo,
{
    if lo >= hi {
        lo
    } else {
        let mid = lo + (hi - lo) / 2;
        if s[mid] < c {
            search16(s, c, mid + 1, hi)
        } else {
            search16(s, c, lo, mid)
        }
    }
}

/// Where a halving search for `c` over the whole of `s` settles.
pub open spec fn search_pos(s: Seq<u16>, c: u16) -> int {
    search16(s, c, 0, s.len() as int)
}

proof fn lemma_search16(s: Seq<u16>, c: u16, lo: int, hi: int)
    requires
        0 <= lo <= hi <= s.len(),
        hi == s.len() || s[hi] >= c,
        lo == 0 || s[lo - 1] < c,
    ensures
        is_boundary(s, c, search16(s, c, lo, hi)),
    decreases hi - lo,
{
    if lo < hi {
        let mid = lo + (hi - lo) / 2;
        if s[mid] < c {
            lemma_search16(s, c, mid + 1, hi);
        } else {
            lemma_search16(s, c, lo, mid);
        }
    }
}

/// The search settles on a search boundary; in a sorted sequence, on the
/// first element not below `c`.
pub proof fn lemma_search_pos(s: Seq<u16>, c: u16)
    ensures
        is_boundary(s, c, search_pos(s, c)),
        sorted_u16(s) ==> search_pos(s, c) == first_at_least(s, c),
{
    lemma_search16(s, c, 0, s.len() as int);
    if sorted_u16(s) {
        lemma_boundary_is_first(s, c, search_pos(s, c));
    }
}

/// Binary search for the boundary of `c` in `s`.
pub fn lower_bound_u16(s: &Vec<u16>, c: u16) -> (r: usize)
    ensures
        r == search_pos(s@, c),
        is_boundary(s@, c, r as int),
{
    proof {
        lemma_search_pos(s@, c);
    }
    let mut lo: usize = 0;
    let mut hi: usize = s.len();
    while lo < hi
        invariant
            lo <= hi <= s@.len(),
            search16(s@, c, lo as int, hi as int) == search_pos(s@, c),
        decreases hi - lo,
    {
        let mid = lo + (hi - lo) / 2;
        if s[mid] < c {
            lo = mid + 1;
        } else {
            hi = mid;
        }
    }
    lo
}

/// Ends (second fields) of a list of `(start, end, value)` ranges.
pub open spec fn range_ends(r: Seq<(u16, u16, u16)>) -> Seq<u16> {
    r.map_values(|x: (u16, u16, u16)| x.1)
}

/// Binary search for the first range whose end is not below `c`.
pub fn lower_bound_ranges(s: &Vec<(u16, u16, u16)>, c: u16) -> (r: usize)
    ensures
        r == search_pos(range_ends(s@), c),
        is_boundary(range_ends(s@), c, r as int),
{
    let ghost e = range_ends(s@);
    proof {
        lemma_search_pos(e, c);
    }
    let mut lo: usize = 0;
    let mut hi: usize = s.len();
    while lo < hi
        invariant
            lo <= hi <= s@.len(),
            e == range_ends(s@),
            e.len() == s@.len(),
            search16(e, c, lo as int, hi as int) == search_pos(e, c),
        decreases hi - lo,
    {
        let mid = lo + (hi - lo) / 2;
        assert(e[mid as int] == s@[mid as int].1);
        if s[mid].1 < c {
            lo = mid + 1;
        } else {
            hi = mid;
        }
    }
    lo
}

/// A parsed coverage table: which glyphs a subtable applies to, and their
/// coverage indices.
pub enum Coverage {
    /// Format 1: sorted glyph list; coverage index == position.
    Glyphs(Vec<u16>),
    /// Format 2: sorted ranges of (start, end, start_coverage_index).
    Ranges(Vec<(u16, u16, u16)>),
}

/// Reads `n` records of three `u16`s starting at `o`.
pub open spec fn triples_at(s: Seq<u8>, o: int, n: int) -> Seq<(u16, u16, u16)> {
    Seq::new(
        n as nat,
        |i: int| (spec_u16(s, o + 6 * i), spec_u16(s, o + 6 * i + 2), spec_u16(s, o + 6 * i + 4)),
    )
}

/// Reads `n` `u16`s starting at `o`.
pub open spec fn u16s_at(s: Seq<u8>, o: int, n: int) -> Seq<u16> {
    Seq::new(n as nat, |i: int| spec_u16(s, o + 2 * i))
}

/// The coverage table at `off`, if its format is known and it fits.
pub open spec fn coverage_at(s: Seq<u8>, off: int, c: Coverage) -> bool {
    let n = spec_u16(s, off + 2) as int;
    match c {
        Coverage::Glyphs(g) => spec_u16(s, off) == 1 && fits(s, off + 4, 2 * n) && g@ == u16s_at(
            s,
            off + 4,
            n,
        ),
        Coverage::Ranges(r) => spec_u16(s, off) == 2 && fits(s, off + 4, 6 * n) && r@
            == triples_at(s, off + 4, n),
    }
}

/// Whether the coverage table at `off` parses.
pub open spec fn coverage_ok(s: Seq<u8>, off: int) -> bool {
    let n = spec_u16(s, off + 2) as int;
    ||| spec_u16(s, off) == 1 && fits(s, off + 4, 2 * n)
    ||| spec_u16(s, off) == 2 && fits(s, off + 4, 6 * n)
}

/// Reads `n` `u16`s at `o`; they must lie inside `b`.
fn read_u16s_in(b: &[u8], o: usize, n: usize) -> (v: Vec<u16>)
    requires
        fits(b@, o as int, 2 * n),
    ensures
        v@ == u16s_at(b@, o as int, n as int),
{
    let _len = b.len();
    let mut v: Vec<u16> = Vec::new();
    let mut i: usize = 0;
    while i < n
        invariant
            i <= n,
            fits(b@, o as int, 2 * n),
            b@.len() <= usize::MAX,
            v@ =~= u16s_at(b@, o as int, i as int),
        decreases n - i,
    {
        v.push(rd16(b, o, 2 * i));
        i = i + 1;
    }
    v
}

/// Reads `n` triples of `u16`s at `o`; they must lie inside `b`.
fn read_triples_in(b: &[u8], o: usize, n: usize) -> (v: Vec<(u16, u16, u16)>)
    requires
        fits(b@, o as int, 6 * n),
    ensures
        v@ == triples_at(b@, o as int, n as int),
{
    let _len = b.len();
    let mut v: Vec<(u16, u16, u16)> = Vec::new();
    let mut i: usize = 0;
    while i < n
        invariant
            i <= n,
            fits(b@, o as int, 6 * n),
            b@.len() <= usize::MAX,
            v@ =~= triples_at(b@, o as int, i as int),
        decreases n - i,
    {
        let r = o + 6 * i;
        v.push((rd16(b, r, 0), rd16(b, r, 2), rd16(b, r, 4)));
        i = i + 1;
    }
    v
}

impl Coverage {
    /// Reads the coverage table at `offset`.
    pub fn parse(b: &[u8], offset: usize) -> (r: Option<Coverage>)
        ensures
            r is Some <==> coverage_ok(b@, offset as int),
            r matches Some(c) ==> coverage_at(b@, offset as int, c),
    {
        let _len = b.len();
        let fmt = rd16(b, offset, 0);
        let count = rd16(b, offset, 2) as usize;
        if fmt == 1 {
            if !fits_at(b, offset, 4 + 2 * count) {
                return None;
            }
            Some(Coverage::Glyphs(read_u16s_in(b, offset + 4, count)))
        } else if fmt == 2 {
            if !fits_at(b, offset, 4 + 6 * count) {
                return None;
            }
            Some(Coverage::Ranges(read_triples_in(b, offset + 4, count)))
        } else {
            None
        }
    }

    /// The sequence searched by [`Coverage::index_of`].
    pub open spec fn keys(&self) -> Seq<u16> {
        match self {
            Coverage::Glyphs(g) => g@,
            Coverage::Ranges(r) => range_ends(r@),
        }
    }

    /// Coverage index of `glyph` given the search boundary `i`.
    pub open spec fn index_at(&self, glyph: u16, i: int) -> Option<u16> {
        match self {
            Coverage::Glyphs(g) => if i < g@.len() && g@[i] == glyph {
                Some(i as u16)
            } else {
                None
            },
            Coverage::Ranges(r) => if i < r@.len() && glyph >= r@[i].0 && glyph <= r@[i].1 {
                Some(r@[i].2.wrapping_add((glyph - r@[i].0) as u16))
            } else {
                None
            },
        }
    }

    /// Coverage index of `glyph`, found at the search boundary of `glyph`.
    pub open spec fn spec_index_of(&self, glyph: u16) -> Option<u16> {
        self.index_at(glyph, search_pos(self.keys(), glyph))
    }

    /// Coverage index of `glyph`, or `None` if it is not covered. Binary
    /// search: both formats are sorted by glyph id per the format.
    pub fn index_of(&self, glyph: u16) -> (r: Option<u16>)
        ensures
            r == self.spec_index_of(glyph),
    {
        match self {
            Coverage::Glyphs(glyphs) => {
                let i = lower_bound_u16(glyphs, glyph);
                let r = if i < glyphs.len() && glyphs[i] == glyph {
                    Some(#[verifier::truncate] (i as u16))
                } else {
                    None
                };
                r
            },
            Coverage::Ranges(ranges) => {
                let i = lower_bound_ranges(ranges, glyph);
                let mut res: Option<u16> = None;
                if i < ranges.len() {
                    let r = ranges[i];
                    if glyph >= r.0 && glyph <= r.1 {
                        res = Some(r.2.wrapping_add(glyph - r.0));
                    }
                }
                res
            },
        }
    }
}

/// A parsed class definition table; unlisted glyphs are class 0.
pub enum ClassDef {
    Fmt1 { start: u16, classes: Vec<u16> },
    Fmt2 { ranges: Vec<(u16, u16, u16)> },
}

/// The class definition table at `off`, if its format is known and it fits.
pub open spec fn classdef_at(s: Seq<u8>, off: int, c: ClassDef) -> bool {
    match c {
        ClassDef::Fmt1 { start, classes } => {
            let n = spec_u16(s, off + 4) as int;
            spec_u16(s, off) == 1 && start == spec_u16(s, off + 2) && fits(s, off + 6, 2 * n)
                && classes@ == u16s_at(s, off + 6, n)
        },
        ClassDef::Fmt2 { ranges } => {
            let n = spec_u16(s, off + 2) as int;
            spec_u16(s, off) == 2 && fits(s, off + 4, 6 * n) && ranges@ == triples_at(
                s,
                off + 4,
                n,
            )
        },
    }
}

/// Whether the class definition table at `off` parses.
pub open spec fn classdef_ok(s: Seq<u8>, off: int) -> bool {
    ||| spec_u16(s, off) == 1 && fits(s, off + 6, 2 * spec_u16(s, off + 4))
    ||| spec_u16(s, off) == 2 && fits(s, off + 4, 6 * spec_u16(s, off + 2))
}

impl ClassDef {
    /// Reads the class definition table at `offset`.
    pub fn parse(b: &[u8], offset: usize) -> (r: Option<ClassDef>)
        ensures
            r is Some <==> classdef_ok(b@, offset as int),
            r matches Some(c) ==> classdef_at(b@, offset as int, c),
    {
        let _len = b.len();
        let fmt = rd16(b, offset, 0);
        if fmt == 1 {
            let start = rd16(b, offset, 2);
            let count = rd16(b, offset, 4) as usize;
            if !fits_at(b, offset, 6 + 2 * count) {
                return None;
            }
            Some(ClassDef::Fmt1 { start, classes: read_u16s_in(b, offset + 6, count) })
        } else if fmt == 2 {
            let count = rd16(b, offset, 2) as usize;
            if !fits_at(b, offset, 4 + 6 * count) {
                return None;
            }
            Some(ClassDef::Fmt2 { ranges: read_triples_in(b, offset + 4, count) })
        } else {
            None
        }
    }

    /// The sequence searched by [`ClassDef::class_of`] (format 2 only).
    pub open spec fn keys(&self) -> Seq<u16> {
        match self {
            ClassDef::Fmt1 { .. } => Seq::empty(),
            ClassDef::Fmt2 { ranges } => range_ends(ranges@),
        }
    }

    /// Class of `glyph` given the search boundary `i` (format 2 only).
    pub open spec fn class_at(&self, glyph: u16, i: int) -> u16 {
        match self {
            ClassDef::Fmt1 { start, classes } => if glyph >= *start && glyph - *start
                < classes@.len() {
                classes@[glyph - *start]
            } else {
                0
            },
            ClassDef::Fmt2 { ranges } => if i < ranges@.len() && glyph >= ranges@[i].0 && glyph
                <= ranges@[i].1 {
                ranges@[i].2
            } else {
                0
            },
        }
    }

    /// Class of `glyph`, found at the search boundary of `glyph`.
    pub open spec fn spec_class_of(&self, glyph: u16) -> u16 {
        self.class_at(glyph, search_pos(self.keys(), glyph))
    }

    /// Class of `glyph`; 0 when the table does not list it.
    pub fn class_of(&self, glyph: u16) -> (r: u16)
        ensures
            r == self.spec_class_of(glyph),
    {
        match self {
            ClassDef::Fmt1 { start, classes } => {
                let res = if glyph >= *start && ((glyph - *start) as usize) < classes.len() {
                    classes[(glyph - *start) as usize]
                } else {
                    0
                };
                res
            },
            ClassDef::Fmt2 { ranges } => {
                let i = lower_bound_ranges(ranges, glyph);
                let mut res: u16 = 0;
                if i < ranges.len() {
                    let r = ranges[i];
                    if glyph >= r.0 && glyph <= r.1 {
                        res = r.2;
                    }
                }
                res
            },
        }
    }
}

// ---------------------------------------------------------------------------
// Feature and lookup lists
// ---------------------------------------------------------------------------

/// Offset of the feature list of the layout table at `t`.
pub open spec fn feature_list_at(s: Seq<u8>, t: int) -> int {
    sat(t + spec_u16(s, t + 6))
}

/// Lookup indices of the feature whose table is at `feat`.
pub open spec fn feature_lookup_indices(s: Seq<u8>, feat: int) -> Seq<u16> {
    Seq::new(spec_u16(s, feat + 2) as nat, |j: int| spec_u16(s, feat + 4 + 2 * j))
}

/// Lookup indices of the first `n` feature records of the feature list at
/// `fl` whose tag is `tag`, in record order.
pub open spec fn spec_feature_lookups(s: Seq<u8>, fl: int, tag: u32, n: int) -> Seq<u16>
    decreases n,
{
    if n <= 0 {
        Seq::empty()
    } else {
        let rec = fl + 2 + 6 * (n - 1);
        let prev = spec_feature_lookups(s, fl, tag, n - 1);
        if spec_u32(s, rec) != tag {
            prev
        } else {
            prev + feature_lookup_indices(s, sat(fl + spec_u16(s, rec + 4)))
        }
    }
}

/// The four tag bytes read as a big-endian `u32`.
pub open spec fn tag_value(tag: Seq<u8>) -> u32 {
    (tag[0] as int * 0x100_0000 + tag[1] as int * 0x1_0000 + tag[2] as int * 0x100 + tag[3] as int) as u32
}

/// Lookup indices referenced by any feature with the given tag (e.g.
/// `kern`), across all scripts/languages.
pub fn feature_lookups(b: &[u8], table_offset: usize, tag: &[u8; 4]) -> (r: Vec<u16>)
    ensures
        r@ == spec_feature_lookups(
            b@,
            feature_list_at(b@, table_offset as int),
            tag_value(tag@),
            spec_u16(b@, feature_list_at(b@, table_offset as int)) as int,
        ),
{
    let mut out: Vec<u16> = Vec::new();
    let feat_list = add_off(table_offset, rd16(b, table_offset, 6) as usize);
    let feat_count = rd16(b, feat_list, 0) as usize;
    let tag_be: u32 = (tag[0] as u32) * 0x100_0000 + (tag[1] as u32) * 0x1_0000 + (tag[2] as u32)
        * 0x100 + (tag[3] as u32);
    let mut i: usize = 0;
    while i < feat_count
        invariant
            i <= feat_count,
            feat_count <= 0xFFFF,
            out@ == spec_feature_lookups(b@, feat_list as int, tag_be, i as int),
        decreases feat_count - i,
    {
        let rec = add_off(feat_list, 2 + 6 * i);
        proof {
            assert(rec == sat(feat_list + 2 + 6 * i));
        }
        if rd32(b, feat_list, 2 + 6 * i) != tag_be {
            i = i + 1;
            continue;
        }
        let feat = add_off(feat_list, rd16(b, feat_list, 2 + 6 * i + 4) as usize);
        let lookup_count = rd16(b, feat, 2) as usize;
        let ghost before = out@;
        let mut j: usize = 0;
        while j < lookup_count
            invariant
                j <= lookup_count,
                lookup_count == spec_u16(b@, feat + 2),
                out@ =~= before + Seq::new(j as nat, |q: int| spec_u16(b@, feat + 4 + 2 * q)),
            decreases lookup_count - j,
        {
            out.push(rd16(b, feat, 4 + 2 * j));
            j = j + 1;
        }
        i = i + 1;
        proof {
            assert(out@ =~= before + feature_lookup_indices(b@, feat as int));
        }
    }
    out
}

/// Offset of the lookup list within the GPOS/GSUB header at `t`.
pub open spec fn spec_lookup_list_offset(s: Seq<u8>, t: int) -> int {
    sat(t + spec_u16(s, t + 8))
}

/// Offset of the lookup list within a GPOS/GSUB header.
pub fn lookup_list_offset(b: &[u8], table_offset: usize) -> (r: usize)
    ensures
        r == spec_lookup_list_offset(b@, table_offset as int),
{
    add_off(table_offset, rd16(b, table_offset, 8) as usize)
}

/// Subtable `i` of the lookup at `lookup` of type `ty`, resolved through
/// an extension subtable when `ty == ext_type`: its effective type and
/// offset, or `None` when it nests extensions or lies outside `s`.
pub open spec fn subtable_entry(s: Seq<u8>, lookup: int, ty: u16, ext_type: u16, i: int) -> Option<
    (u16, int),
> {
    let sub0 = sat(lookup + spec_u16(s, lookup + 6 + 2 * i));
    if ty == ext_type {
        let sub_ty = spec_u16(s, sub0 + 2);
        let sub = sat(sub0 + spec_u32(s, sub0 + 4));
        if sub_ty == ext_type || sub >= s.len() {
            None
        } else {
            Some((sub_ty, sub))
        }
    } else if sub0 >= s.len() {
        None
    } else {
        Some((ty, sub0))
    }
}

/// The resolved entries of the first `n` subtables of the lookup at `lookup`.
pub open spec fn subtable_entries(s: Seq<u8>, lookup: int, ty: u16, ext_type: u16, n: int) -> Seq<
    (u16, int),
>
    decreases n,
{
    if n <= 0 {
        Seq::empty()
    } else {
        let prev = subtable_entries(s, lookup, ty, ext_type, n - 1);
        match subtable_entry(s, lookup, ty, ext_type, n - 1) {
            Some(e) => prev.push(e),
            None => prev,
        }
    }
}

/// Every subtable of lookup `lookup_index` of the lookup list at `ll`.
pub open spec fn spec_lookup_subtables(s: Seq<u8>, ll: int, lookup_index: u16, ext_type: u16) -> Seq<
    (u16, int),
> {
    if lookup_index >= spec_u16(s, ll) {
        Seq::empty()
    } else {
        let lookup = sat(ll + spec_u16(s, ll + 2 + 2 * lookup_index));
        subtable_entries(
            s,
            lookup,
            spec_u16(s, lookup),
            ext_type,
            spec_u16(s, lookup + 4) as int,
        )
    }
}

/// Every subtable of one lookup as (lookup_type, subtable_offset),
/// resolving extension lookups (`ext_type`, GPOS 9 / GSUB 7) transparently.
pub fn for_each_subtable(b: &[u8], lookup_list: usize, lookup_index: u16, ext_type: u16) -> (r:
    Vec<(u16, usize)>)
    ensures
        r@.map_values(|e: (u16, usize)| (e.0, e.1 as int)) == spec_lookup_subtables(
            b@,
            lookup_list as int,
            lookup_index,
            ext_type,
        ),
{
    let mut out: Vec<(u16, usize)> = Vec::new();
    let lookup_count = rd16(b, lookup_list, 0);
    if lookup_index >= lookup_count {
        proof {
            assert(out@.map_values(|e: (u16, usize)| (e.0, e.1 as int)) =~= Seq::<
                (u16, int),
            >::empty());
        }
        return out;
    }
    let lookup = add_off(lookup_list, rd16(b, lookup_list, 2 + lookup_index as usize * 2) as usize);
    let ty = rd16(b, lookup, 0);
    let sub_count = rd16(b, lookup, 4) as usize;
    let mut i: usize = 0;
    while i < sub_count
        invariant
            i <= sub_count,
            sub_count <= 0xFFFF,
            out@.map_values(|e: (u16, usize)| (e.0, e.1 as int)) =~= subtable_entries(
                b@,
                lookup as int,
                ty,
                ext_type,
                i as int,
            ),
        decreases sub_count - i,
    {
        let ghost before = out@;
        let mut sub = add_off(lookup, rd16(b, lookup, 6 + i * 2) as usize);
        let mut sub_ty = ty;
        let mut keep = true;
        if sub_ty == ext_type {
            sub_ty = rd16(b, sub, 2);
            let ext_off = rd32(b, sub, 4) as usize;
            if sub_ty == ext_type {
                keep = false;
            }
            sub = add_off(sub, ext_off);
        }
        if keep && sub < b.len() {
            out.push((sub_ty, sub));
            proof {
                assert(out@.map_values(|e: (u16, usize)| (e.0, e.1 as int)) =~= before.map_values(
                    |e: (u16, usize)| (e.0, e.1 as int),
                ).push((sub_ty, sub as int)));
            }
        }
        i = i + 1;
    }
    out
}

} // verus!
