//! The `hhea` table: horizontal header.

use vstd::prelude::*;
use crate::bytes::{spec_u16, spec_i16, rd16, rdi16};

verus! {

/// Horizontal header fields.
#[derive(Debug, Clone, Copy)]
pub struct HheaTable {
    pub _major_version: u16,
    pub _minor_version: u16,
    pub _ascender: i16,
    pub _descender: i16,
    pub _line_gap: i16,
    pub _advance_width_max: u16,
    pub _min_left_side_bearing: i16,
    pub _min_right_side_bearing: i16,
    pub _x_max_extent: i16,
    pub _caret_slope_rise: i16,
    pub _caret_slope_run: i16,
    pub _caret_offset: i16,
    pub _reserved1: i16,
    pub _reserved2: i16,
    pub _reserved3: i16,
    pub _reserved4: i16,
    pub _metric_data_format: i16,
    pub number_of_h_metrics: u16,
}

/// The horizontal header stored at `off` in `s` (fields past the end read as 0).
pub open spec fn hhea_at(s: Seq<u8>, off: int) -> HheaTable {
    HheaTable {
        _major_version: spec_u16(s, off),
        _minor_version: spec_u16(s, off + 2),
        _ascender: spec_i16(s, off + 4),
        _descender: spec_i16(s, off + 6),
        _line_gap: spec_i16(s, off + 8),
        _advance_width_max: spec_u16(s, off + 10),
        _min_left_side_bearing: spec_i16(s, off + 12),
        _min_right_side_bearing: spec_i16(s, off + 14),
        _x_max_extent: spec_i16(s, off + 16),
        _caret_slope_rise: spec_i16(s, off + 18),
        _caret_slope_run: spec_i16(s, off + 20),
        _caret_offset: spec_i16(s, off + 22),
        _reserved1: spec_i16(s, off + 24),
        _reserved2: spec_i16(s, off + 26),
        _reserved3: spec_i16(s, off + 28),
        _reserved4: spec_i16(s, off + 30),
        _metric_data_format: spec_i16(s, off + 32),
        number_of_h_metrics: spec_u16(s, off + 34),
    }
}

impl HheaTable {
    /// An all-zero horizontal header.
    pub fn new() -> (r: Self)
        ensures
            r == hhea_at(Seq::empty(), 0),
    {
        HheaTable {
            _major_version: 0,
            _minor_version: 0,
            _ascender: 0,
            _descender: 0,
            _line_gap: 0,
            _advance_width_max: 0,
            _min_left_side_bearing: 0,
            _min_right_side_bearing: 0,
            _x_max_extent: 0,
            _caret_slope_rise: 0,
            _caret_slope_run: 0,
            _caret_offset: 0,
            _reserved1: 0,
            _reserved2: 0,
            _reserved3: 0,
            _reserved4: 0,
            _metric_data_format: 0,
            number_of_h_metrics: 0,
        }
    }

    /// Reads the horizontal header at `offset`.
    pub fn parse(b: &[u8], offset: usize) -> (r: Self)
        ensures
            r == hhea_at(b@, offset as int),
    {
        HheaTable {
            _major_version: rd16(b, offset, 0),
            _minor_version: rd16(b, offset, 2),
            _ascender: rdi16(b, offset, 4),
            _descender: rdi16(b, offset, 6),
            _line_gap: rdi16(b, offset, 8),
            _advance_width_max: rd16(b, offset, 10),
            _min_left_side_bearing: rdi16(b, offset, 12),
            _min_right_side_bearing: rdi16(b, offset, 14),
            _x_max_extent: rdi16(b, offset, 16),
            _caret_slope_rise: rdi16(b, offset, 18),
            _caret_slope_run: rdi16(b, offset, 20),
            _caret_offset: rdi16(b, offset, 22),
            _reserved1: rdi16(b, offset, 24),
            _reserved2: rdi16(b, offset, 26),
            _reserved3: rdi16(b, offset, 28),
            _reserved4: rdi16(b, offset, 30),
            _metric_data_format: rdi16(b, offset, 32),
            number_of_h_metrics: rd16(b, offset, 34),
        }
    }
}

} // verus!
