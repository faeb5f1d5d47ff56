//! The `hmtx` table: advance widths and left side bearings.

use vstd::prelude::*;
use crate::bytes::{fits, spec_u16, spec_i16, rd16, rdi16};

verus! {

/// Horizontal metrics of every glyph.
#[derive(Debug, Clone)]
pub struct HmtxTable {
    pub h_metrics: Vec<LongHorMetric>,
    pub left_side_bearings: Vec<i16>,
}

/// Advance width and left side bearing of one glyph.
#[derive(Debug, Clone, Copy)]
pub struct LongHorMetric {
    pub advance_width: u16,
    pub left_side_bearing: i16,
}

/// Number of glyphs that only have a left side bearing.
pub open spec fn extra_lsb_count(number_of_h_metrics: u16, num_glyphs: u16) -> int {
    if num_glyphs > number_of_h_metrics {
        num_glyphs - number_of_h_metrics
    } else {
        0
    }
}

/// The metrics at `off` fit inside `s`.
pub open spec fn hmtx_fits(s: Seq<u8>, off: int, nhm: u16, ng: u16) -> bool {
    fits(s, off, 4 * nhm + 2 * extra_lsb_count(nhm, ng))
}

/// `t` holds the `nhm` long metrics and the extra side bearings stored at `off`.
pub open spec fn hmtx_at(s: Seq<u8>, off: int, nhm: u16, ng: u16, t: HmtxTable) -> bool {
    &&& t.h_metrics@.len() == nhm
    &&& t.left_side_bearings@.len() == extra_lsb_count(nhm, ng)
    &&& forall|i: int|
        0 <= i < nhm ==> (#[trigger] t.h_metrics@[i]).advance_width == spec_u16(s, off + 4 * i)
            && t.h_metrics@[i].left_side_bearing == spec_i16(s, off + 4 * i + 2)
    &&& forall|i: int|
        0 <= i < extra_lsb_count(nhm, ng) ==> #[trigger] t.left_side_bearings@[i] == spec_i16(
            s,
            off + 4 * nhm + 2 * i,
        )
}

impl HmtxTable {
    /// An empty table.
    pub fn new() -> (r: HmtxTable)
        ensures
            r.h_metrics@.len() == 0,
            r.left_side_bearings@.len() == 0,
    {
        HmtxTable { h_metrics: Vec::new(), left_side_bearings: Vec::new() }
    }

    /// Reads `nhm` long metrics and the side bearings of the remaining
    /// glyphs (up to `ng`) at `off`; `None` when they run past the end of `b`.
    pub fn parse(b: &[u8], off: usize, nhm: u16, ng: u16) -> (r: Option<HmtxTable>)
        ensures
            r is Some <==> hmtx_fits(b@, off as int, nhm, ng),
            r matches Some(t) ==> hmtx_at(b@, off as int, nhm, ng, t),
    {
        let len = b.len();
        let extra: usize = if ng > nhm { (ng - nhm) as usize } else { 0 };
        let need = 4 * (nhm as usize) + 2 * extra;
        if !(off <= len && need <= len - off) {
            return None;
        }
        let mut h_metrics: Vec<LongHorMetric> = Vec::new();
        let mut i: usize = 0;
        while i < nhm as usize
            invariant
                i <= nhm,
                off + need <= len,
                need == 4 * nhm + 2 * extra,
                h_metrics@.len() == i,
                forall|j: int|
                    0 <= j < i ==> (#[trigger] h_metrics@[j]).advance_width == spec_u16(b@, off + 4 * j)
                        && h_metrics@[j].left_side_bearing == spec_i16(b@, off + 4 * j + 2),
            decreases nhm - i,
        {
            h_metrics.push(
                LongHorMetric {
                    advance_width: rd16(b, off, 4 * i),
                    left_side_bearing: rdi16(b, off, 4 * i + 2),
                },
            );
            i = i + 1;
        }
        let mut left_side_bearings: Vec<i16> = Vec::new();
        let mut k: usize = 0;
        while k < extra
            invariant
                k <= extra,
                extra == extra_lsb_count(nhm, ng),
                off + need <= len,
                need == 4 * nhm + 2 * extra,
                left_side_bearings@.len() == k,
                forall|j: int|
                    0 <= j < k ==> #[trigger] left_side_bearings@[j] == spec_i16(
                        b@,
                        off + 4 * nhm + 2 * j,
                    ),
            decreases extra - k,
        {
            left_side_bearings.push(rdi16(b, off, 4 * (nhm as usize) + 2 * k));
            k = k + 1;
        }
        Some(HmtxTable { h_metrics, left_side_bearings })
    }

    /// Advance width and left side bearing of glyph `glyph_id`, in font
    /// units. Glyphs past the long metrics reuse the last advance width;
    /// glyphs past the side bearings (or with no long metric to borrow an
    /// advance from) get `(0, 0)`.
    pub fn metrics(&self, glyph_id: u32) -> (r: (u16, i16))
        ensures
            r == spec_metrics(self.h_metrics@, self.left_side_bearings@, glyph_id as int),
    {
        let idx = glyph_id as usize;
        let n = self.h_metrics.len();
        if idx < n {
            let m = self.h_metrics[idx];
            (m.advance_width, m.left_side_bearing)
        } else {
            let lsb_idx = idx - n;
            if lsb_idx < self.left_side_bearings.len() && n > 0 {
                (self.h_metrics[n - 1].advance_width, self.left_side_bearings[lsb_idx])
            } else {
                (0, 0)
            }
        }
    }
}

/// Metrics of glyph `idx` per the long metrics `hm` and extra side bearings `lsb`.
pub open spec fn spec_metrics(hm: Seq<LongHorMetric>, lsb: Seq<i16>, idx: int) -> (u16, i16) {
    if idx < hm.len() {
        (hm[idx].advance_width, hm[idx].left_side_bearing)
    } else if idx - hm.len() < lsb.len() && hm.len() > 0 {
        (hm.last().advance_width, lsb[idx - hm.len()])
    } else {
        (0, 0)
    }
}

} // verus!
