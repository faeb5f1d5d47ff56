//! The `maxp` table: glyph count and memory maxima.

use vstd::prelude::*;
use crate::bytes::{spec_u16, spec_u32, rd16, rd32};

verus! {

/// Maximum-profile fields.
#[derive(Debug, Copy, Clone)]
pub struct MaxpTable {
    pub _version: u32,
    pub num_glyphs: u16,
    pub _max_points: u16,
    pub _max_contours: u16,
    pub _max_composite_points: u16,
    pub _max_composite_contours: u16,
    pub _max_zones: u16,
    pub _max_twilight_points: u16,
    pub _max_storage: u16,
    pub _max_function_defs: u16,
    pub _max_instruction_defs: u16,
    pub _max_stack_elements: u16,
    pub _max_size_of_instructions: u16,
    pub _max_component_elements: u16,
    pub _max_component_depth: u16,
}

/// The maximum profile stored at `off` in `s` (fields past the end read as 0).
pub open spec fn maxp_at(s: Seq<u8>, off: int) -> MaxpTable {
    MaxpTable {
        _version: spec_u32(s, off),
        num_glyphs: spec_u16(s, off + 4),
        _max_points: spec_u16(s, off + 6),
        _max_contours: spec_u16(s, off + 8),
        _max_composite_points: spec_u16(s, off + 10),
        _max_composite_contours: spec_u16(s, off + 12),
        _max_zones: spec_u16(s, off + 14),
        _max_twilight_points: spec_u16(s, off + 16),
        _max_storage: spec_u16(s, off + 18),
        _max_function_defs: spec_u16(s, off + 20),
        _max_instruction_defs: spec_u16(s, off + 22),
        _max_stack_elements: spec_u16(s, off + 24),
        _max_size_of_instructions: spec_u16(s, off + 26),
        _max_component_elements: spec_u16(s, off + 28),
        _max_component_depth: spec_u16(s, off + 30),
    }
}

impl MaxpTable {
    /// An all-zero maximum profile.
    pub fn new() -> (r: Self)
        ensures
            r == maxp_at(Seq::empty(), 0),
    {
        MaxpTable {
            _version: 0,
            num_glyphs: 0,
            _max_points: 0,
            _max_contours: 0,
            _max_composite_points: 0,
            _max_composite_contours: 0,
            _max_zones: 0,
            _max_twilight_points: 0,
            _max_storage: 0,
            _max_function_defs: 0,
            _max_instruction_defs: 0,
            _max_stack_elements: 0,
            _max_size_of_instructions: 0,
            _max_component_elements: 0,
            _max_component_depth: 0,
        }
    }

    /// Reads the maximum profile at `offset`.
    pub fn parse(b: &[u8], offset: usize) -> (r: Self)
        ensures
            r == maxp_at(b@, offset as int),
    {
        MaxpTable {
            _version: rd32(b, offset, 0),
            num_glyphs: rd16(b, offset, 4),
            _max_points: rd16(b, offset, 6),
            _max_contours: rd16(b, offset, 8),
            _max_composite_points: rd16(b, offset, 10),
            _max_composite_contours: rd16(b, offset, 12),
            _max_zones: rd16(b, offset, 14),
            _max_twilight_points: rd16(b, offset, 16),
            _max_storage: rd16(b, offset, 18),
            _max_function_defs: rd16(b, offset, 20),
            _max_instruction_defs: rd16(b, offset, 22),
            _max_stack_elements: rd16(b, offset, 24),
            _max_size_of_instructions: rd16(b, offset, 26),
            _max_component_elements: rd16(b, offset, 28),
            _max_component_depth: rd16(b, offset, 30),
        }
    }
}

} // verus!
