//! What rendering a glyph needs from a loaded font: its index, its outline
//! and its horizontal metrics; and the metrics of a rendered bitmap.

use vstd::prelude::*;
use crate::font::TrueTypeFont;
use crate::outline::GlyphOutline;
use crate::tables::hmtx::spec_metrics;
use crate::tables::kern::glyph_of;

verus! {

/// Size and placement of a rendered glyph, in pixels.
#[derive(Clone, Copy, Debug)]
pub struct Metrics {
    pub width: usize,
    pub height: usize,
    pub left_side_bearing: isize,
    pub advance_width: usize,
    pub base_line: isize,
}

/// The slot whose outline is rendered for glyph `id`: its own when filled,
/// else that of glyph 0 (the missing glyph) when filled, else none.
pub open spec fn render_slot(slots: Seq<Option<GlyphOutline>>, id: int) -> Option<int> {
    if 0 <= id < slots.len() && slots[id] is Some {
        Some(id)
    } else if slots.len() > 0 && slots[0] is Some {
        Some(0)
    } else {
        None
    }
}

impl TrueTypeFont {
    /// Glyph index for a character; 0 (the missing glyph) when unmapped.
    pub fn lookup_glyph_index(&self, c: char) -> (r: u32)
        requires
            self.glyph_id_table.wf(),
        ensures
            r == glyph_of(self.glyph_id_table@, c),
    {
        match self.glyph_id_table.get(c as u64) {
            Some(g) => *g,
            None => 0,
        }
    }

    /// The glyph slot rendered for glyph `id`: unmapped or unloaded glyphs
    /// fall back to the missing glyph, and to nothing when even that is absent.
    pub fn glyph_slot(&self, id: u32) -> (r: Option<usize>)
        ensures
            match render_slot(self.glyph_data_table@, id as int) {
                Some(i) => r == Some(i as usize),
                None => r is None,
            },
    {
        let n = self.glyph_data_table.len();
        if (id as usize) < n && self.glyph_data_table[id as usize].is_some() {
            Some(id as usize)
        } else if n > 0 && self.glyph_data_table[0].is_some() {
            Some(0)
        } else {
            None
        }
    }

    /// The outline rendered for glyph `id` (see [`TrueTypeFont::glyph_slot`]).
    pub fn outline_for(&self, id: u32) -> (r: Option<&GlyphOutline>)
        ensures
            match render_slot(self.glyph_data_table@, id as int) {
                Some(i) => r matches Some(x) && Some(*x) == self.glyph_data_table@[i],
                None => r is None,
            },
    {
        match self.glyph_slot(id) {
            Some(i) => self.glyph_data_table[i].as_ref(),
            None => None,
        }
    }

    /// Advance width and left side bearing of glyph `glyph_id`, in font units.
    pub fn get_metrics(&self, glyph_id: u32) -> (r: (u16, i16))
        ensures
            r == spec_metrics(self.hmtx.h_metrics@, self.hmtx.left_side_bearings@, glyph_id as int),
    {
        self.hmtx.metrics(glyph_id)
    }
}

} // verus!
