//! Kerning: the legacy `kern` table and the lookup over all kerning sources.

use vstd::prelude::*;
use crate::bytes::{sat, spec_u16, spec_i16, rd16, rdi16, add_off};
use crate::font::{TrueTypeFont, find_table, find_table_index, make_tag, tag_kern};
use crate::tables::gpos::{ClassPairTable, pair_key, make_pair_key};

verus! {

broadcast use vstd::std_specs::hash::group_hash_axioms;

/// Offset of subtable `k` of the `kern` table at `t`: the first follows the
/// 4-byte header, each next one follows the previous by its declared length.
pub open spec fn kern_sub_off(s: Seq<u8>, t: int, k: int) -> int
    decreases k,
{
    if k <= 0 {
        sat(t + 4)
    } else {
        let p = kern_sub_off(s, t, k - 1);
        sat(p + spec_u16(s, p + 2))
    }
}

/// The first `j` pairs of the format-0 subtable at `o` inserted into `m`.
pub open spec fn kern_pairs_apply(s: Seq<u8>, o: int, m: Map<u64, i16>, j: int) -> Map<u64, i16>
    decreases j,
{
    if j <= 0 {
        m
    } else {
        let p = o + 14 + 6 * (j - 1);
        kern_pairs_apply(s, o, m, j - 1).insert(
            pair_key(spec_u16(s, p) as u32, spec_u16(s, p + 2) as u32),
            spec_i16(s, p + 4),
        )
    }
}

/// The subtable at `o` folded into `m`: only horizontal format-0 subtables count.
pub open spec fn kern_sub_apply(s: Seq<u8>, o: int, m: Map<u64, i16>) -> Map<u64, i16> {
    let coverage = spec_u16(s, o + 4);
    if coverage >> 8u16 == 0 && coverage & 1u16 != 0 {
        kern_pairs_apply(s, o, m, spec_u16(s, o + 6) as int)
    } else {
        m
    }
}

/// The first `n` subtables of the `kern` table at `t` folded into `m`.
pub open spec fn kern_table_apply(s: Seq<u8>, t: int, m: Map<u64, i16>, n: int) -> Map<u64, i16>
    decreases n,
{
    if n <= 0 {
        m
    } else {
        kern_sub_apply(s, kern_sub_off(s, t, n - 1), kern_table_apply(s, t, m, n - 1))
    }
}

/// Value of the first class matrix among `tables[..n]` that gives `(left, right)`
/// a non-zero adjustment.
pub open spec fn gpos_first(tables: Seq<ClassPairTable>, left: u16, right: u16, n: int) -> Option<i16>
    decreases n,
{
    if n <= 0 {
        None
    } else {
        match gpos_first(tables, left, right, n - 1) {
            Some(v) => Some(v),
            None => match tables[n - 1].spec_lookup(left, right) {
                Some(v) => if v != 0 {
                    Some(v)
                } else {
                    None
                },
                None => None,
            },
        }
    }
}

/// Every class matrix of `tables` is well formed.
pub open spec fn all_wf(tables: Seq<ClassPairTable>) -> bool {
    forall|q: int| 0 <= q < tables.len() ==> (#[trigger] tables[q]).wf()
}

/// Kerning of glyphs `(left, right)`: the explicit pair if there is one,
/// else the first non-zero class-matrix value (glyph ids taken modulo 2^16).
pub open spec fn spec_kerning(kern: Map<u64, i16>, tables: Seq<ClassPairTable>, left: u32, right: u32) -> Option<
    i16,
> {
    let k = pair_key(left, right);
    if kern.contains_key(k) {
        Some(kern[k])
    } else {
        gpos_first(tables, (left % 0x10000) as u16, (right % 0x10000) as u16, tables.len() as int)
    }
}

/// Glyph index of character `c` in `ids`, 0 when unmapped.
pub open spec fn glyph_of(ids: Map<u64, u32>, c: char) -> u32 {
    if ids.contains_key(c as u64) {
        ids[c as u64]
    } else {
        0
    }
}

impl TrueTypeFont {
    /// Reads the first `kern` table, if any: the pairs of its horizontal
    /// format-0 subtables join `kern_table` (a later pair replaces an earlier
    /// one).
    pub fn load_kerning_pairs(&mut self, font_bytes: &[u8])
        ensures
            find_table(old(self).tables@, tag_kern()) is None ==> *final(self) == *old(self),
            find_table(old(self).tables@, tag_kern()) matches Some(i) ==> {
                let t = old(self).tables@[i].offset as int;
                &&& *final(self) == (TrueTypeFont { kern_table: final(self).kern_table, ..*old(self) })
                &&& final(self).kern_table@ == kern_table_apply(
                    font_bytes@,
                    t,
                    old(self).kern_table@,
                    spec_u16(font_bytes@, t + 2) as int,
                )
            },
    {
        let tag = make_tag(0x6B, 0x65, 0x72, 0x6E);
        let ti = match find_table_index(&self.tables, &tag) {
            Some(i) => i,
            None => return,
        };
        let offset = self.tables[ti].offset as usize;
        let n_tables = rd16(font_bytes, offset, 2) as usize;
        let ghost m0 = self.kern_table@;
        let ghost o0 = *self;
        let mut subtable_offset = add_off(offset, 4);
        let mut k: usize = 0;
        while k < n_tables
            invariant
                k <= n_tables,
                n_tables == spec_u16(font_bytes@, offset + 2),
                subtable_offset == kern_sub_off(font_bytes@, offset as int, k as int),
                *self == (TrueTypeFont { kern_table: self.kern_table, ..o0 }),
                self.kern_table@ == kern_table_apply(font_bytes@, offset as int, m0, k as int),
            decreases n_tables - k,
        {
            let length = rd16(font_bytes, subtable_offset, 2);
            let coverage = rd16(font_bytes, subtable_offset, 4);
            let format = coverage >> 8;
            let horizontal = (coverage & 0x01) != 0;
            if format == 0 && horizontal {
                let n_pairs = rd16(font_bytes, subtable_offset, 6) as usize;
                let ghost m1 = self.kern_table@;
                let mut j: usize = 0;
                while j < n_pairs
                    invariant
                        j <= n_pairs,
                        n_pairs <= 0xFFFF,
                        *self == (TrueTypeFont { kern_table: self.kern_table, ..o0 }),
                        self.kern_table@ == kern_pairs_apply(font_bytes@, subtable_offset as int, m1, j as int),
                    decreases n_pairs - j,
                {
                    let left = rd16(font_bytes, subtable_offset, 14 + 6 * j);
                    let right = rd16(font_bytes, subtable_offset, 16 + 6 * j);
                    let value = rdi16(font_bytes, subtable_offset, 18 + 6 * j);
                    self.kern_table.insert(make_pair_key(left as u32, right as u32), value);
                    j = j + 1;
                }
            }
            subtable_offset = add_off(subtable_offset, length as usize);
            k = k + 1;
        }
    }

    /// Kerning adjustment (font units, X advance of the left glyph) of the
    /// glyph pair `(left, right)`: explicit pairs (legacy `kern` and GPOS
    /// format 1) first, then the first class matrix with a non-zero value.
    pub fn get_kerning_by_id(&self, left: u32, right: u32) -> (r: Option<i16>)
        requires
            all_wf(self.gpos_kern@),
        ensures
            r == spec_kerning(self.kern_table@, self.gpos_kern@, left, right),
    {
        let key = make_pair_key(left, right);
        match self.kern_table.get(&key) {
            Some(v) => {
                return Some(*v);
            },
            None => {},
        }
        let l16 = (left % 0x10000) as u16;
        let r16 = (right % 0x10000) as u16;
        let mut q: usize = 0;
        while q < self.gpos_kern.len()
            invariant
                q <= self.gpos_kern@.len(),
                all_wf(self.gpos_kern@),
                !self.kern_table@.contains_key(pair_key(left, right)),
                l16 == (left % 0x10000) as u16,
                r16 == (right % 0x10000) as u16,
                gpos_first(self.gpos_kern@, l16, r16, q as int) is None,
            decreases self.gpos_kern@.len() - q,
        {
            let t = &self.gpos_kern[q];
            match t.lookup(l16, r16) {
                Some(v) => {
                    if v != 0 {
                        proof {
                            assert(gpos_first(self.gpos_kern@, l16, r16, q + 1) == Some(v));
                            lemma_gpos_first_stable(self.gpos_kern@, l16, r16, q + 1, self.gpos_kern@.len() as int);
                        }
                        return Some(v);
                    }
                },
                None => {},
            }
            q = q + 1;
        }
        None
    }

    /// Kerning adjustment (font units) for a character pair; an unmapped
    /// character counts as glyph 0.
    pub fn get_kerning(&self, left: char, right: char) -> (r: Option<i16>)
        requires
            self.glyph_id_table.wf(),
            all_wf(self.gpos_kern@),
        ensures
            r == spec_kerning(
                self.kern_table@,
                self.gpos_kern@,
                glyph_of(self.glyph_id_table@, left),
                glyph_of(self.glyph_id_table@, right),
            ),
    {
        let l = match self.glyph_id_table.get(left as u64) {
            Some(g) => *g,
            None => 0,
        };
        let g = match self.glyph_id_table.get(right as u64) {
            Some(g) => *g,
            None => 0,
        };
        self.get_kerning_by_id(l, g)
    }
}

/// Once a value is found among the first `a` matrices, looking further changes nothing.
proof fn lemma_gpos_first_stable(tables: Seq<ClassPairTable>, left: u16, right: u16, a: int, b: int)
    requires
        0 <= a <= b,
        gpos_first(tables, left, right, a) is Some,
    ensures
        gpos_first(tables, left, right, b) == gpos_first(tables, left, right, a),
    decreases b - a,
{
    if a < b {
        lemma_gpos_first_stable(tables, left, right, a, b - 1);
    }
}

} // verus!
