//! The `glyf` table: glyph outlines as stored in the file.
//!
//! A malformed glyph record degrades to [`ProtoGlyph::Empty`] instead of
//! failing the whole font.

use vstd::prelude::*;
use crate::bytes::{fits, fits_at, sat, spec_u8, spec_u16, spec_u32, spec_i16, rd8, rd16, rd32, rdi16, add_off, byte_at};
use crate::tables::loca::LocaTable;
use crate::font::TableRecord;

verus! {

pub const WE_HAVE_A_SCALE: u16 = 0x0008;
pub const WE_HAVE_AN_X_AND_Y_SCALE: u16 = 0x0040;
pub const WE_HAVE_A_TWO_BY_TWO: u16 = 0x0080;
pub const ARGS_ARE_XY_VALUES: u16 = 0x0002;
pub const ARGS_ARE_WORDS: u16 = 0x0001;
pub const MORE_COMPONENTS: u16 = 0x0020;
pub const WE_HAVE_INSTRUCTIONS: u16 = 0x0100;

/// Point flag bits.
pub const ON_CURVE_POINT: u8 = 0x01;
pub const X_SHORT_VECTOR: u8 = 0x02;
pub const Y_SHORT_VECTOR: u8 = 0x04;
pub const REPEAT_FLAG: u8 = 0x08;
pub const X_IS_SAME_OR_POSITIVE: u8 = 0x10;
pub const Y_IS_SAME_OR_POSITIVE: u8 = 0x20;

/// A glyph described by its own contours.
#[derive(Debug, Clone)]
pub struct SimpleGlyph {
    pub _number_of_contours: i16,
    pub _x_min: i16,
    pub _y_min: i16,
    pub _x_max: i16,
    pub y_max: i16,
    pub end_pts_of_contours: Vec<u16>,
    pub instruction_length: u16,
    pub instructions: Vec<u8>,
    pub flags: Vec<u8>,
    pub x_coordinates: Vec<i16>,
    pub y_coordinates: Vec<i16>,
}

/// A glyph assembled from other glyphs.
#[derive(Debug, Clone)]
pub struct CompositeGlyph {
    pub _number_of_contours: i16,
    pub _x_min: i16,
    pub _y_min: i16,
    pub _x_max: i16,
    pub y_max: i16,
    pub components: Vec<CompositeComponent>,
    pub _end_pts_of_contours: Vec<u16>,
    pub instructions: Vec<u8>,
}

/// One component of a composite glyph. Scales are kept in the file's
/// F2Dot14 fixed-point form (value / 16384).
#[derive(Debug, Clone, Copy)]
pub struct CompositeComponent {
    pub flags: u16,
    pub glyph_index: u16,
    pub argument1: i16,
    pub argument2: i16,
    pub scale: Option<i16>,
    pub x_scale: Option<i16>,
    pub y_scale: Option<i16>,
    pub scale_01: Option<i16>,
    pub scale_10: Option<i16>,
}

/// A glyph record as read from `glyf`.
#[derive(Debug, Clone)]
pub enum ProtoGlyph {
    Simple(SimpleGlyph),
    Composite(CompositeGlyph),
    Empty,
}

/// Mathematical form of a [`SimpleGlyph`].
pub ghost struct SimpleGlyphV {
    pub number_of_contours: i16,
    pub x_min: i16,
    pub y_min: i16,
    pub x_max: i16,
    pub y_max: i16,
    pub end_pts: Seq<u16>,
    pub instruction_length: u16,
    pub instructions: Seq<u8>,
    pub flags: Seq<u8>,
    pub xs: Seq<i16>,
    pub ys: Seq<i16>,
}

/// Mathematical form of a [`CompositeGlyph`].
pub ghost struct CompositeGlyphV {
    pub number_of_contours: i16,
    pub x_min: i16,
    pub y_min: i16,
    pub x_max: i16,
    pub y_max: i16,
    pub components: Seq<CompositeComponent>,
    pub end_pts: Seq<u16>,
    pub instructions: Seq<u8>,
}

/// Mathematical form of a [`ProtoGlyph`].
pub ghost enum ProtoGlyphV {
    Simple(SimpleGlyphV),
    Composite(CompositeGlyphV),
    Empty,
}

impl View for SimpleGlyph {
    type V = SimpleGlyphV;

    open spec fn view(&self) -> SimpleGlyphV {
        SimpleGlyphV {
            number_of_contours: self._number_of_contours,
            x_min: self._x_min,
            y_min: self._y_min,
            x_max: self._x_max,
            y_max: self.y_max,
            end_pts: self.end_pts_of_contours@,
            instruction_length: self.instruction_length,
            instructions: self.instructions@,
            flags: self.flags@,
            xs: self.x_coordinates@,
            ys: self.y_coordinates@,
        }
    }
}

impl View for CompositeGlyph {
    type V = CompositeGlyphV;

    open spec fn view(&self) -> CompositeGlyphV {
        CompositeGlyphV {
            number_of_contours: self._number_of_contours,
            x_min: self._x_min,
            y_min: self._y_min,
            x_max: self._x_max,
            y_max: self.y_max,
            components: self.components@,
            end_pts: self._end_pts_of_contours@,
            instructions: self.instructions@,
        }
    }
}

impl View for ProtoGlyph {
    type V = ProtoGlyphV;

    open spec fn view(&self) -> ProtoGlyphV {
        match self {
            ProtoGlyph::Simple(g) => ProtoGlyphV::Simple(g@),
            ProtoGlyph::Composite(g) => ProtoGlyphV::Composite(g@),
            ProtoGlyph::Empty => ProtoGlyphV::Empty,
        }
    }
}

// ---------------------------------------------------------------------------
// Point flags and coordinates
// ---------------------------------------------------------------------------

/// The point flags read from `o` for `n` points: each flag byte with the
/// repeat bit is followed by a count of extra copies. Yields the flags
/// (possibly more than `n` when a repeat overshoots) and the offset after them.
pub open spec fn spec_flags(s: Seq<u8>, o: int, n: int) -> Option<(Seq<u8>, int)>
    decreases (if n > 0 { n } else { 0 }),
{
    if n <= 0 {
        Some((Seq::empty(), o))
    } else if !(0 <= o < s.len()) {
        None
    } else {
        let f = s[o];
        if f & REPEAT_FLAG != 0 {
            if !(o + 1 < s.len()) {
                None
            } else {
                let rc = s[o + 1];
                match spec_flags(s, o + 2, n - 1 - rc) {
                    Some((rest, e)) => Some((seq![f] + Seq::new(rc as nat, |k: int| f) + rest, e)),
                    None => None,
                }
            }
        } else {
            match spec_flags(s, o + 1, n - 1) {
                Some((rest, e)) => Some((seq![f] + rest, e)),
                None => None,
            }
        }
    }
}

/// One coordinate axis for points `i..n`, starting from the running value
/// `cur` at offset `o`: short deltas are one unsigned byte whose sign comes
/// from `same`; otherwise `same` means "repeat", else a 16-bit delta follows.
/// `None` when a delta lies past the end of `s`.
pub open spec fn spec_coords(
    s: Seq<u8>,
    o: int,
    flags: Seq<u8>,
    i: int,
    n: int,
    cur: i16,
    short: u8,
    same: u8,
) -> Option<(Seq<i16>, int)>
    decreases n - i,
{
    if i >= n {
        Some((Seq::empty(), o))
    } else {
        let f = flags[i];
        if f & short != 0 {
            if !(0 <= o < s.len()) {
                None
            } else {
                let d = s[o] as i16;
                let c2 = if f & same != 0 {
                    cur.wrapping_add(d)
                } else {
                    cur.wrapping_sub(d)
                };
                match spec_coords(s, o + 1, flags, i + 1, n, c2, short, same) {
                    Some((rest, e)) => Some((seq![c2] + rest, e)),
                    None => None,
                }
            }
        } else if f & same == 0 {
            if !fits(s, o, 2) {
                None
            } else {
                let c2 = cur.wrapping_add(spec_i16(s, o));
                match spec_coords(s, o + 2, flags, i + 1, n, c2, short, same) {
                    Some((rest, e)) => Some((seq![c2] + rest, e)),
                    None => None,
                }
            }
        } else {
            match spec_coords(s, o, flags, i + 1, n, cur, short, same) {
                Some((rest, e)) => Some((seq![cur] + rest, e)),
                None => None,
            }
        }
    }
}

/// Reads the flags of `n` points from `offset`.
fn read_flags(b: &[u8], offset: usize, n: usize) -> (r: Option<(Vec<u8>, usize)>)
    requires
        n <= 0x1_0000,
    ensures
        match r {
            Some((v, e)) => spec_flags(b@, offset as int, n as int) == Some((v@, e as int)),
            None => spec_flags(b@, offset as int, n as int) is None,
        },
{
    let len = b.len();
    let mut flags: Vec<u8> = Vec::new();
    let mut o = offset;
    let mut read: usize = 0;
    while read < n
        invariant
            len == b@.len(),
            n <= 0x1_0000,
            read <= n + 255,
            o <= offset || o <= b@.len(),
            spec_flags(b@, offset as int, n as int) == match spec_flags(
                b@,
                o as int,
                n - read,
            ) {
                Some((rest, e)) => Some((flags@ + rest, e)),
                None => None::<(Seq<u8>, int)>,
            },
        decreases n + 256 - read,
    {
        let f = match byte_at(b, o) {
            Some(f) => f,
            None => return None,
        };
        let ghost before = flags@;
        flags.push(f);
        o = o + 1;
        read = read + 1;
        if f & REPEAT_FLAG != 0 {
            let rc = match byte_at(b, o) {
                Some(rc) => rc,
                None => return None,
            };
            o = o + 1;
            let mut k: u8 = 0;
            while k < rc
                invariant
                    k <= rc,
                    flags@ == before + seq![f] + Seq::new(k as nat, |j: int| f),
                decreases rc - k,
            {
                flags.push(f);
                k = k + 1;
                proof {
                    assert(flags@ =~= before + seq![f] + Seq::new(k as nat, |j: int| f));
                }
            }
            read = read + rc as usize;
            proof {
                let rest = spec_flags(b@, o as int, n - read);
                match rest {
                    Some((r2, e)) => {
                        assert(before + (seq![f] + Seq::new(rc as nat, |j: int| f) + r2) =~= flags@
                            + r2);
                    },
                    None => {},
                }
            }
        } else {
            proof {
                let rest = spec_flags(b@, o as int, n - read);
                match rest {
                    Some((r2, e)) => {
                        assert(before + (seq![f] + r2) =~= flags@ + r2);
                    },
                    None => {},
                }
            }
        }
    }
    proof {
        assert(flags@ + Seq::<u8>::empty() =~= flags@);
    }
    Some((flags, o))
}

/// Reads one coordinate axis of `n` points from `offset`.
fn read_coords(b: &[u8], offset: usize, flags: &Vec<u8>, n: usize, short: u8, same: u8) -> (r:
    Option<(Vec<i16>, usize)>)
    requires
        n <= flags@.len(),
    ensures
        match r {
            Some((v, e)) => spec_coords(b@, offset as int, flags@, 0, n as int, 0, short, same)
                == Some((v@, e as int)),
            None => spec_coords(b@, offset as int, flags@, 0, n as int, 0, short, same) is None,
        },
{
    let len = b.len();
    let mut coords: Vec<i16> = Vec::new();
    let mut o = offset;
    let mut cur: i16 = 0;
    let mut i: usize = 0;
    while i < n
        invariant
            len == b@.len(),
            i <= n,
            n <= flags@.len(),
            spec_coords(b@, offset as int, flags@, 0, n as int, 0, short, same) == match spec_coords(
                b@,
                o as int,
                flags@,
                i as int,
                n as int,
                cur,
                short,
                same,
            ) {
                Some((rest, e)) => Some((coords@ + rest, e)),
                None => None::<(Seq<i16>, int)>,
            },
        decreases n - i,
    {
        let f = flags[i];
        let ghost before = coords@;
        if f & short != 0 {
            let d = match byte_at(b, o) {
                Some(d) => d as i16,
                None => return None,
            };
            cur = if f & same != 0 {
                cur.wrapping_add(d)
            } else {
                cur.wrapping_sub(d)
            };
            o = o + 1;
        } else if f & same == 0 {
            if !fits_at(b, o, 2) {
                return None;
            }
            cur = cur.wrapping_add(rdi16(b, o, 0));
            o = o + 2;
        }
        coords.push(cur);
        i = i + 1;
        proof {
            match spec_coords(b@, o as int, flags@, i as int, n as int, cur, short, same) {
                Some((r2, e)) => {
                    assert(before + (seq![cur] + r2) =~= coords@ + r2);
                },
                None => {},
            }
        }
    }
    proof {
        assert(coords@ + Seq::<i16>::empty() =~= coords@);
    }
    Some((coords, o))
}

/// Number of points of a simple glyph whose contour end points are `ep`:
/// one past the last end point.
pub open spec fn num_points_of(ep: Seq<u16>) -> int {
    if ep.len() == 0 {
        0
    } else {
        ep.last() + 1
    }
}

/// The simple glyph whose record starts at `g` in `s`; `None` when any part
/// of the record lies past the end of `s`.
pub open spec fn simple_glyph_at(s: Seq<u8>, g: int) -> Option<SimpleGlyphV> {
    let nc = spec_i16(s, g) as int;
    let ep = Seq::new(nc as nat, |k: int| spec_u16(s, g + 10 + 2 * k));
    let il = spec_u16(s, g + 10 + 2 * nc);
    let io = sat(g + 12 + 2 * nc);
    let np = num_points_of(ep);
    if !fits(s, g, 12 + 2 * nc) || !fits(s, io, il as int) {
        None
    } else {
        match spec_flags(s, io + il, np) {
            None => None,
            Some((flags, xo)) => match spec_coords(
                s,
                xo,
                flags,
                0,
                np,
                0,
                X_SHORT_VECTOR,
                X_IS_SAME_OR_POSITIVE,
            ) {
                None => None,
                Some((xs, yo)) => match spec_coords(
                    s,
                    yo,
                    flags,
                    0,
                    np,
                    0,
                    Y_SHORT_VECTOR,
                    Y_IS_SAME_OR_POSITIVE,
                ) {
                    None => None,
                    Some((ys, _e)) => Some(
                        SimpleGlyphV {
                            number_of_contours: spec_i16(s, g),
                            x_min: spec_i16(s, g + 2),
                            y_min: spec_i16(s, g + 4),
                            x_max: spec_i16(s, g + 6),
                            y_max: spec_i16(s, g + 8),
                            end_pts: ep,
                            instruction_length: il,
                            instructions: s.subrange(io, io + il),
                            flags,
                            xs,
                            ys,
                        },
                    ),
                },
            },
        }
    }
}

proof fn lemma_flags_len(s: Seq<u8>, o: int, n: int)
    ensures
        spec_flags(s, o, n) matches Some((f, e)) ==> f.len() >= n && e >= o,
    decreases (if n > 0 { n } else { 0 }),
{
    if n > 0 && 0 <= o < s.len() {
        let f = s[o];
        if f & REPEAT_FLAG != 0 {
            if o + 1 < s.len() {
                lemma_flags_len(s, o + 2, n - 1 - s[o + 1]);
            }
        } else {
            lemma_flags_len(s, o + 1, n - 1);
        }
    }
}

/// Reads the simple glyph whose record starts at `g` (its contour count must be non-negative).
fn parse_simple(b: &[u8], g: usize) -> (r: Option<SimpleGlyph>)
    requires
        spec_i16(b@, g as int) >= 0,
    ensures
        match r {
            Some(sg) => simple_glyph_at(b@, g as int) == Some(sg@),
            None => simple_glyph_at(b@, g as int) is None,
        },
{
    let len = b.len();
    let nc = rdi16(b, g, 0);
    let ncu = nc as usize;
    if !fits_at(b, g, 12 + 2 * ncu) {
        return None;
    }
    let mut end_pts: Vec<u16> = Vec::new();
    let mut k: usize = 0;
    while k < ncu
        invariant
            k <= ncu,
            ncu == nc,
            0 <= nc,
            end_pts@.len() == k,
            forall|j: int| 0 <= j < k ==> #[trigger] end_pts@[j] == spec_u16(b@, g + 10 + 2 * j),
        decreases ncu - k,
    {
        end_pts.push(rd16(b, g, 10 + 2 * k));
        k = k + 1;
    }
    let ghost ep = Seq::new(nc as nat, |j: int| spec_u16(b@, g + 10 + 2 * j));
    assert(end_pts@ =~= ep);
    let instruction_length = rd16(b, g, 10 + 2 * ncu);
    let io = add_off(g, 12 + 2 * ncu);
    if !(io <= len && (instruction_length as usize) <= len - io) {
        return None;
    }
    let mut instructions: Vec<u8> = Vec::new();
    let mut j: usize = 0;
    while j < instruction_length as usize
        invariant
            j <= instruction_length,
            io + instruction_length <= len,
            len == b@.len(),
            instructions@ =~= b@.subrange(io as int, io + j),
        decreases instruction_length - j,
    {
        instructions.push(b[io + j]);
        j = j + 1;
    }
    let fo = io + instruction_length as usize;
    let num_points: usize = if ncu == 0 {
        0
    } else {
        end_pts[ncu - 1] as usize + 1
    };
    let (flags, xo) = match read_flags(b, fo, num_points) {
        Some(p) => p,
        None => return None,
    };
    proof {
        lemma_flags_len(b@, fo as int, num_points as int);
    }
    let (xs, yo) = match read_coords(b, xo, &flags, num_points, X_SHORT_VECTOR, X_IS_SAME_OR_POSITIVE) {
        Some(p) => p,
        None => return None,
    };
    let (ys, _e) = match read_coords(b, yo, &flags, num_points, Y_SHORT_VECTOR, Y_IS_SAME_OR_POSITIVE) {
        Some(p) => p,
        None => return None,
    };
    Some(
        SimpleGlyph {
            _number_of_contours: nc,
            _x_min: rdi16(b, g, 2),
            _y_min: rdi16(b, g, 4),
            _x_max: rdi16(b, g, 6),
            y_max: rdi16(b, g, 8),
            end_pts_of_contours: end_pts,
            instruction_length,
            instructions,
            flags,
            x_coordinates: xs,
            y_coordinates: ys,
        },
    )
}

// ---------------------------------------------------------------------------
// Composite glyphs
// ---------------------------------------------------------------------------

/// Length of the transform of a component with `flags`.
pub open spec fn scale_len(flags: u16) -> int {
    if flags & WE_HAVE_A_SCALE != 0 {
        2
    } else if flags & WE_HAVE_AN_X_AND_Y_SCALE != 0 {
        4
    } else if flags & WE_HAVE_A_TWO_BY_TWO != 0 {
        8
    } else {
        0
    }
}

/// Length of the flags, glyph index and arguments of a component with `flags`.
pub open spec fn args_len(flags: u16) -> int {
    if flags & ARGS_ARE_WORDS != 0 {
        8
    } else {
        6
    }
}

/// The component record at `o` and the offset after it; `None` when the
/// record lies past the end of `s`.
pub open spec fn component_at(s: Seq<u8>, o: int) -> Option<(CompositeComponent, int)> {
    let flags = spec_u16(s, o);
    let words = flags & ARGS_ARE_WORDS != 0;
    let p = o + args_len(flags);
    if !fits(s, o, args_len(flags) + scale_len(flags)) {
        None
    } else {
        let a1: i16 = if words { spec_i16(s, o + 4) } else { (spec_u8(s, o + 4) as i8) as i16 };
        let a2: i16 = if words { spec_i16(s, o + 6) } else { (spec_u8(s, o + 5) as i8) as i16 };
        let c = CompositeComponent {
            flags,
            glyph_index: spec_u16(s, o + 2),
            argument1: a1,
            argument2: a2,
            scale: if flags & WE_HAVE_A_SCALE != 0 { Some(spec_i16(s, p)) } else { None },
            x_scale: if flags & WE_HAVE_A_SCALE == 0 && (flags & WE_HAVE_AN_X_AND_Y_SCALE != 0
                || flags & WE_HAVE_A_TWO_BY_TWO != 0) {
                Some(spec_i16(s, p))
            } else {
                None
            },
            y_scale: if flags & WE_HAVE_A_SCALE == 0 && flags & WE_HAVE_AN_X_AND_Y_SCALE != 0 {
                Some(spec_i16(s, p + 2))
            } else if flags & WE_HAVE_A_SCALE == 0 && flags & WE_HAVE_A_TWO_BY_TWO != 0 {
                Some(spec_i16(s, p + 6))
            } else {
                None
            },
            scale_01: if flags & WE_HAVE_A_SCALE == 0 && flags & WE_HAVE_AN_X_AND_Y_SCALE == 0
                && flags & WE_HAVE_A_TWO_BY_TWO != 0 {
                Some(spec_i16(s, p + 2))
            } else {
                None
            },
            scale_10: if flags & WE_HAVE_A_SCALE == 0 && flags & WE_HAVE_AN_X_AND_Y_SCALE == 0
                && flags & WE_HAVE_A_TWO_BY_TWO != 0 {
                Some(spec_i16(s, p + 4))
            } else {
                None
            },
        };
        Some((c, p + scale_len(flags)))
    }
}

/// The component records from `o` on, up to the first one without
/// `MORE_COMPONENTS`, and the offset after them.
pub open spec fn components_from(s: Seq<u8>, o: int) -> Option<(Seq<CompositeComponent>, int)>
    decreases (if 0 <= o < s.len() { s.len() - o } else { 0 }),
{
    match component_at(s, o) {
        None => None,
        Some((c, p)) => {
            if c.flags & MORE_COMPONENTS != 0 && 0 <= o < s.len() && o < p {
                match components_from(s, p) {
                    Some((rest, e)) => Some((seq![c] + rest, e)),
                    None => None,
                }
            } else {
                Some((seq![c], p))
            }
        },
    }
}

/// The composite glyph whose record starts at `g` in `s`; `None` when any
/// part of the record lies past the end of `s`.
pub open spec fn composite_glyph_at(s: Seq<u8>, g: int) -> Option<CompositeGlyphV> {
    if !fits(s, g, 10) {
        None
    } else {
    match components_from(s, g + 10) {
        None => None,
        Some((comps, p)) => {
            let has_instr = comps.len() > 0 && comps.last().flags & WE_HAVE_INSTRUCTIONS != 0;
            let il = spec_u16(s, p);
            let io = sat(p + 2);
            if has_instr && (!fits(s, p, 2) || !fits(s, io, il as int)) {
                None
            } else {
                Some(
                    CompositeGlyphV {
                        number_of_contours: spec_i16(s, g),
                        x_min: spec_i16(s, g + 2),
                        y_min: spec_i16(s, g + 4),
                        x_max: spec_i16(s, g + 6),
                        y_max: spec_i16(s, g + 8),
                        components: comps,
                        end_pts: Seq::empty(),
                        instructions: if has_instr {
                            s.subrange(io, io + il)
                        } else {
                            Seq::empty()
                        },
                    },
                )
            }
        },
    }
    }
}

proof fn lemma_flag_nonzero(s: Seq<u8>, o: int)
    ensures
        spec_u16(s, o) & MORE_COMPONENTS != 0 ==> fits(s, o, 2),
        spec_u16(s, o) & ARGS_ARE_WORDS != 0 ==> fits(s, o, 2),
{
    assert(0u16 & 0x0020u16 == 0u16) by (bit_vector);
    assert(0u16 & 0x0001u16 == 0u16) by (bit_vector);
}

/// Reads the component record at `o`.
fn read_component(b: &[u8], o: usize) -> (r: Option<(CompositeComponent, usize)>)
    ensures
        match r {
            Some((c, p)) => component_at(b@, o as int) == Some((c, p as int)),
            None => component_at(b@, o as int) is None,
        },
{
    let _len = b.len();
    let flags = rd16(b, o, 0);
    let args: usize = if flags & ARGS_ARE_WORDS != 0 {
        8
    } else {
        6
    };
    let scales: usize = if flags & WE_HAVE_A_SCALE != 0 {
        2
    } else if flags & WE_HAVE_AN_X_AND_Y_SCALE != 0 {
        4
    } else if flags & WE_HAVE_A_TWO_BY_TWO != 0 {
        8
    } else {
        0
    };
    if !fits_at(b, o, args + scales) {
        return None;
    }
    let glyph_index = rd16(b, o, 2);
    let argument1: i16;
    let argument2: i16;
    if flags & ARGS_ARE_WORDS != 0 {
        argument1 = rdi16(b, o, 4);
        argument2 = rdi16(b, o, 6);
    } else {
        argument1 = (#[verifier::truncate] (rd8(b, o, 4) as i8)) as i16;
        argument2 = (#[verifier::truncate] (rd8(b, o, 5) as i8)) as i16;
    }
    let p = o + args;
    let mut comp = CompositeComponent {
        flags,
        glyph_index,
        argument1,
        argument2,
        scale: None,
        x_scale: None,
        y_scale: None,
        scale_01: None,
        scale_10: None,
    };
    if flags & WE_HAVE_A_SCALE != 0 {
        comp.scale = Some(rdi16(b, p, 0));
    } else if flags & WE_HAVE_AN_X_AND_Y_SCALE != 0 {
        comp.x_scale = Some(rdi16(b, p, 0));
        comp.y_scale = Some(rdi16(b, p, 2));
    } else if flags & WE_HAVE_A_TWO_BY_TWO != 0 {
        comp.x_scale = Some(rdi16(b, p, 0));
        comp.scale_01 = Some(rdi16(b, p, 2));
        comp.scale_10 = Some(rdi16(b, p, 4));
        comp.y_scale = Some(rdi16(b, p, 6));
    }
    Some((comp, p + scales))
}

/// Reads the composite glyph whose record starts at `g`.
fn parse_composite(b: &[u8], g: usize) -> (r: Option<CompositeGlyph>)
    ensures
        match r {
            Some(cg) => composite_glyph_at(b@, g as int) == Some(cg@),
            None => composite_glyph_at(b@, g as int) is None,
        },
{
    let len = b.len();
    if !fits_at(b, g, 10) {
        return None;
    }
    let start = g + 10;
    let mut o = start;
    let mut components: Vec<CompositeComponent> = Vec::new();
    loop
        invariant_except_break
            len == b@.len(),
            start == g + 10,
            components_from(b@, start as int) == match components_from(b@, o as int) {
                Some((rest, e)) => Some((components@ + rest, e)),
                None => None::<(Seq<CompositeComponent>, int)>,
            },
        ensures
            len == b@.len(),
            components@.len() > 0,
            components_from(b@, start as int) == Some((components@, o as int)),
        decreases (if o < len { len - o } else { 0 }),
    {
        let ghost before = components@;
        let ghost o_before = o as int;
        let (c, p) = match read_component(b, o) {
            Some(x) => x,
            None => {
                proof {
                    assert(components_from(b@, o as int) is None);
                    assert(components_from(b@, start as int) is None);
                    assert(composite_glyph_at(b@, g as int) is None);
                }
                return None;
            },
        };
        components.push(c);
        proof {
            lemma_flag_nonzero(b@, o as int);
        }
        if c.flags & MORE_COMPONENTS == 0 {
            o = p;
            proof {
                assert(before + seq![c] =~= components@);
            }
            break;
        }
        o = p;
        proof {
            match components_from(b@, o as int) {
                Some((r2, e)) => {
                    assert(before + (seq![c] + r2) =~= components@ + r2);
                },
                None => {},
            }
        }
    }
    let last_flags = components[components.len() - 1].flags;
    let mut instructions: Vec<u8> = Vec::new();
    if last_flags & WE_HAVE_INSTRUCTIONS != 0 {
        if !fits_at(b, o, 2) {
            return None;
        }
        let il = rd16(b, o, 0);
        let io = add_off(o, 2);
        if !(io <= len && (il as usize) <= len - io) {
            return None;
        }
        let mut j: usize = 0;
        while j < il as usize
            invariant
                j <= il,
                io + il <= len,
                len == b@.len(),
                instructions@ =~= b@.subrange(io as int, io + j),
            decreases il - j,
        {
            instructions.push(b[io + j]);
            j = j + 1;
        }
    }
    Some(
        CompositeGlyph {
            _number_of_contours: rdi16(b, g, 0),
            _x_min: rdi16(b, g, 2),
            _y_min: rdi16(b, g, 4),
            _x_max: rdi16(b, g, 6),
            y_max: rdi16(b, g, 8),
            components,
            _end_pts_of_contours: Vec::new(),
            instructions,
        },
    )
}

// ---------------------------------------------------------------------------
// Locating a glyph record
// ---------------------------------------------------------------------------

/// Start and end (relative to `glyf`) of glyph `idx`'s record, per `loca`.
pub open spec fn glyph_span(s: Seq<u8>, loca: LocaTable, idx: int) -> Option<(int, int)> {
    match loca {
        LocaTable::Short { offset } => Some(
            (
                spec_u16(s, offset + idx * 2) as int * 2,
                spec_u16(s, offset + (idx + 1) * 2) as int * 2,
            ),
        ),
        LocaTable::Long { offset } => Some(
            (spec_u32(s, offset + idx * 4) as int, spec_u32(s, offset + (idx + 1) * 4) as int),
        ),
        LocaTable::Empty => None,
    }
}

/// The record of glyph `idx`, or `None` when the index is out of range or
/// its `loca` span is inverted or runs past the end of `glyf`, or the
/// record itself is truncated.
pub open spec fn glyph_record(
    s: Seq<u8>,
    loca: LocaTable,
    glyf: TableRecord,
    num_glyphs: u16,
    idx: int,
) -> Option<ProtoGlyphV> {
    if idx >= num_glyphs {
        None
    } else {
        match glyph_span(s, loca, idx) {
            None => None,
            Some((start, end)) => {
                if end < start || end > glyf.length {
                    None
                } else if end == start {
                    Some(ProtoGlyphV::Empty)
                } else {
                    let go = sat(glyf.offset + start);
                    if spec_i16(s, go) >= 0 {
                        match simple_glyph_at(s, go) {
                            Some(g) => Some(ProtoGlyphV::Simple(g)),
                            None => None,
                        }
                    } else {
                        match composite_glyph_at(s, go) {
                            Some(g) => Some(ProtoGlyphV::Composite(g)),
                            None => None,
                        }
                    }
                }
            },
        }
    }
}

/// Glyph `idx`, with any failure degraded to an empty glyph.
pub open spec fn glyph_or_empty(
    s: Seq<u8>,
    loca: LocaTable,
    glyf: TableRecord,
    num_glyphs: u16,
    idx: int,
) -> ProtoGlyphV {
    match glyph_record(s, loca, glyf, num_glyphs, idx) {
        Some(g) => g,
        None => ProtoGlyphV::Empty,
    }
}

/// Reads the record of glyph `glyph_id`.
pub fn parse_glyph(
    b: &[u8],
    loca: &LocaTable,
    glyf: &TableRecord,
    num_glyphs: u16,
    glyph_id: u32,
) -> (r: Option<ProtoGlyph>)
    ensures
        match r {
            Some(g) => glyph_record(b@, *loca, *glyf, num_glyphs, glyph_id as int) == Some(g@),
            None => glyph_record(b@, *loca, *glyf, num_glyphs, glyph_id as int) is None,
        },
{
    if glyph_id >= num_glyphs as u32 {
        return None;
    }
    let idx = glyph_id as usize;
    let (start_offset, end_offset): (u32, u32) = match loca {
        LocaTable::Short { offset } => {
            let start = rd16(b, *offset as usize, idx * 2) as u32 * 2;
            let end = rd16(b, *offset as usize, (idx + 1) * 2) as u32 * 2;
            (start, end)
        },
        LocaTable::Long { offset } => {
            let start = rd32(b, *offset as usize, idx * 4);
            let end = rd32(b, *offset as usize, (idx + 1) * 4);
            (start, end)
        },
        LocaTable::Empty => return None,
    };
    if end_offset < start_offset {
        return None;
    }
    if end_offset > glyf.length {
        return None;
    }
    let glyf_offset = add_off(glyf.offset as usize, start_offset as usize);
    if end_offset == start_offset {
        return Some(ProtoGlyph::Empty);
    }
    let contours = rdi16(b, glyf_offset, 0);
    if contours >= 0 {
        match parse_simple(b, glyf_offset) {
            Some(g) => Some(ProtoGlyph::Simple(g)),
            None => None,
        }
    } else {
        match parse_composite(b, glyf_offset) {
            Some(g) => Some(ProtoGlyph::Composite(g)),
            None => None,
        }
    }
}

/// Reads glyph `glyph_id`, degrading any failure to [`ProtoGlyph::Empty`].
pub fn parse_glyph_or_empty(
    b: &[u8],
    loca: &LocaTable,
    glyf: &TableRecord,
    num_glyphs: u16,
    glyph_id: u32,
) -> (r: ProtoGlyph)
    ensures
        r@ == glyph_or_empty(b@, *loca, *glyf, num_glyphs, glyph_id as int),
{
    match parse_glyph(b, loca, glyf, num_glyphs, glyph_id) {
        Some(g) => g,
        None => ProtoGlyph::Empty,
    }
}

impl ProtoGlyph {
    /// Left edge of the glyph's bounding box (0 for an empty glyph).
    pub fn _get_x_min(&self) -> (r: i16)
        ensures
            r == match *self {
                ProtoGlyph::Simple(g) => g._x_min,
                ProtoGlyph::Composite(g) => g._x_min,
                ProtoGlyph::Empty => 0,
            },
    {
        match self {
            ProtoGlyph::Simple(glyph) => glyph._x_min,
            ProtoGlyph::Composite(glyph) => glyph._x_min,
            ProtoGlyph::Empty => 0,
        }
    }

    /// Right edge of the glyph's bounding box (0 for an empty glyph).
    pub fn _get_x_max(&self) -> (r: i16)
        ensures
            r == match *self {
                ProtoGlyph::Simple(g) => g._x_max,
                ProtoGlyph::Composite(g) => g._x_max,
                ProtoGlyph::Empty => 0,
            },
    {
        match self {
            ProtoGlyph::Simple(glyph) => glyph._x_max,
            ProtoGlyph::Composite(glyph) => glyph._x_max,
            ProtoGlyph::Empty => 0,
        }
    }

    /// Bottom edge of the glyph's bounding box (0 for an empty glyph).
    pub fn _get_y_min(&self) -> (r: i16)
        ensures
            r == match *self {
                ProtoGlyph::Simple(g) => g._y_min,
                ProtoGlyph::Composite(g) => g._y_min,
                ProtoGlyph::Empty => 0,
            },
    {
        match self {
            ProtoGlyph::Simple(glyph) => glyph._y_min,
            ProtoGlyph::Composite(glyph) => glyph._y_min,
            ProtoGlyph::Empty => 0,
        }
    }

    /// Top edge of the glyph's bounding box (0 for an empty glyph).
    pub fn _get_y_max(&self) -> (r: i16)
        ensures
            r == match *self {
                ProtoGlyph::Simple(g) => g.y_max,
                ProtoGlyph::Composite(g) => g.y_max,
                ProtoGlyph::Empty => 0,
            },
    {
        match self {
            ProtoGlyph::Simple(glyph) => glyph.y_max,
            ProtoGlyph::Composite(glyph) => glyph.y_max,
            ProtoGlyph::Empty => 0,
        }
    }

    /// Last point index of each contour (none for a composite or empty glyph).
    pub fn _get_contour_end_points(&self) -> (r: Vec<u16>)
        ensures
            r@ == match *self {
                ProtoGlyph::Simple(g) => g.end_pts_of_contours@,
                ProtoGlyph::Composite(g) => g._end_pts_of_contours@,
                ProtoGlyph::Empty => Seq::empty(),
            },
    {
        let src = match self {
            ProtoGlyph::Simple(glyph) => &glyph.end_pts_of_contours,
            ProtoGlyph::Composite(glyph) => &glyph._end_pts_of_contours,
            ProtoGlyph::Empty => return Vec::new(),
        };
        let mut out: Vec<u16> = Vec::new();
        let mut i: usize = 0;
        while i < src.len()
            invariant
                i <= src@.len(),
                out@ == src@.take(i as int),
            decreases src@.len() - i,
        {
            out.push(src[i]);
            i = i + 1;
            proof {
                assert(out@ =~= src@.take(i as int));
            }
        }
        proof {
            assert(src@.take(src@.len() as int) =~= src@);
        }
        out
    }
}

} // verus!
