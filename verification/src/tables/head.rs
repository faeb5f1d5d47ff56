//! The `head` table: global font header.

use vstd::prelude::*;
use crate::bytes::{spec_u16, spec_u32, spec_i16, spec_i64, rd16, rd32, rdi16, rdi64};

verus! {

/// Font header fields.
#[derive(Debug, Copy, Clone)]
pub struct HeadTable {
    pub _major_version: u16,
    pub _minor_version: u16,
    pub _font_revision: u32,
    pub _checksum_adjustment: u32,
    pub _magic_number: u32,
    pub _flags: u16,
    pub units_per_em: u16,
    pub _created: i64,
    pub modified: i64,
    pub x_min: i16,
    pub y_min: i16,
    pub x_max: i16,
    pub y_max: i16,
    pub mac_style: u16,
    pub lowest_rec_ppem: u16,
    pub font_direction_hint: i16,
    pub index_to_loc_format: i16,
    pub glyph_data_format: i16,
}

/// The header stored at `off` in `s` (fields past the end read as 0).
pub open spec fn head_at(s: Seq<u8>, off: int) -> HeadTable {
    HeadTable {
        _major_version: spec_u16(s, off),
        _minor_version: spec_u16(s, off + 2),
        _font_revision: spec_u32(s, off + 4),
        _checksum_adjustment: spec_u32(s, off + 8),
        _magic_number: spec_u32(s, off + 12),
        _flags: spec_u16(s, off + 16),
        units_per_em: spec_u16(s, off + 18),
        _created: spec_i64(s, off + 20),
        modified: spec_i64(s, off + 28),
        x_min: spec_i16(s, off + 36),
        y_min: spec_i16(s, off + 38),
        x_max: spec_i16(s, off + 40),
        y_max: spec_i16(s, off + 42),
        mac_style: spec_u16(s, off + 44),
        lowest_rec_ppem: spec_u16(s, off + 46),
        font_direction_hint: spec_i16(s, off + 48),
        index_to_loc_format: spec_i16(s, off + 50),
        glyph_data_format: spec_i16(s, off + 52),
    }
}

impl HeadTable {
    /// An all-zero header.
    pub fn new() -> (r: Self)
        ensures
            r == head_at(Seq::empty(), 0),
    {
        HeadTable {
            _major_version: 0,
            _minor_version: 0,
            _font_revision: 0,
            _checksum_adjustment: 0,
            _magic_number: 0,
            _flags: 0,
            units_per_em: 0,
            _created: 0,
            modified: 0,
            x_min: 0,
            y_min: 0,
            x_max: 0,
            y_max: 0,
            mac_style: 0,
            lowest_rec_ppem: 0,
            font_direction_hint: 0,
            index_to_loc_format: 0,
            glyph_data_format: 0,
        }
    }

    /// Reads the header at `offset`.
    pub fn parse(b: &[u8], offset: usize) -> (r: Self)
        ensures
            r == head_at(b@, offset as int),
    {
        HeadTable {
            _major_version: rd16(b, offset, 0),
            _minor_version: rd16(b, offset, 2),
            _font_revision: rd32(b, offset, 4),
            _checksum_adjustment: rd32(b, offset, 8),
            _magic_number: rd32(b, offset, 12),
            _flags: rd16(b, offset, 16),
            units_per_em: rd16(b, offset, 18),
            _created: rdi64(b, offset, 20),
            modified: rdi64(b, offset, 28),
            x_min: rdi16(b, offset, 36),
            y_min: rdi16(b, offset, 38),
            x_max: rdi16(b, offset, 40),
            y_max: rdi16(b, offset, 42),
            mac_style: rd16(b, offset, 44),
            lowest_rec_ppem: rd16(b, offset, 46),
            font_direction_hint: rdi16(b, offset, 48),
            index_to_loc_format: rdi16(b, offset, 50),
            glyph_data_format: rdi16(b, offset, 52),
        }
    }
}

} // verus!
