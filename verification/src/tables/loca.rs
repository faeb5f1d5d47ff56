//! The `loca` table: where each glyph's data lies inside `glyf`.

use vstd::prelude::*;

verus! {

/// Location of the `loca` offsets and their width.
#[derive(Debug, Clone, Copy)]
pub enum LocaTable {
    /// 16-bit offsets, stored divided by two.
    Short { offset: u32 },
    /// 32-bit offsets.
    Long { offset: u32 },
    /// No `loca` table loaded.
    Empty,
}

} // verus!
