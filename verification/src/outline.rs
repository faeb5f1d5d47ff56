//! Glyph outlines in font units: the contours of a glyph record, with
//! composite glyphs resolved into the contours of their components.
//!
//! Points are `(x - x_min, y_max - y)` in font units, i.e. relative to the
//! glyph's left edge and top, with y growing downwards. Contours taken from
//! a component carry that component, whose transform is applied when the
//! outline is turned into geometry.

use vstd::prelude::*;
use crate::tables::glyf::{
    CompositeComponent, ProtoGlyph, ProtoGlyphV, SimpleGlyph, SimpleGlyphV, glyph_or_empty,
    parse_glyph_or_empty, num_points_of, REPEAT_FLAG, ON_CURVE_POINT,
};
use crate::tables::loca::LocaTable;
use crate::font::TableRecord;

verus! {

/// An outline point in font units.
#[derive(Debug, Copy, Clone)]
pub struct Point {
    pub x: i32,
    pub y: i32,
    pub on_curve: bool,
}

/// One closed contour, with the component whose transform applies to it.
#[derive(Debug, Clone)]
pub struct Contour {
    pub points: Vec<Point>,
    pub component: Option<CompositeComponent>,
}

/// The resolved outline of a glyph.
#[derive(Debug, Clone)]
pub struct GlyphOutline {
    pub contours: Vec<Contour>,
    pub y_max: i16,
}

/// Mathematical form of a [`Contour`].
pub ghost struct ContourV {
    pub points: Seq<Point>,
    pub component: Option<CompositeComponent>,
}

/// Mathematical form of a [`GlyphOutline`].
pub ghost struct OutlineV {
    pub contours: Seq<ContourV>,
    pub y_max: i16,
}

impl View for Contour {
    type V = ContourV;

    open spec fn view(&self) -> ContourV {
        ContourV { points: self.points@, component: self.component }
    }
}

impl View for GlyphOutline {
    type V = OutlineV;

    open spec fn view(&self) -> OutlineV {
        OutlineV { contours: self.contours@.map_values(|c: Contour| c@), y_max: self.y_max }
    }
}

// ---------------------------------------------------------------------------
// On-curve flags
// ---------------------------------------------------------------------------

/// On-curve bits of up to `need` points decoded from `raw[i..]`, where a
/// flag with the repeat bit is followed by a count of extra copies.
pub open spec fn spec_expand(raw: Seq<u8>, i: int, need: int) -> Seq<bool>
    decreases raw.len() - i,
{
    if need <= 0 || i >= raw.len() || i < 0 {
        Seq::empty()
    } else {
        let f = raw[i];
        let on = f & ON_CURVE_POINT != 0;
        if f & REPEAT_FLAG != 0 {
            if i + 1 >= raw.len() {
                seq![on]
            } else {
                let rep = raw[i + 1] as int;
                let k = if rep < need - 1 { rep } else { need - 1 };
                seq![on] + Seq::new(k as nat, |t: int| on) + spec_expand(raw, i + 2, need - 1 - k)
            }
        } else {
            seq![on] + spec_expand(raw, i + 1, need - 1)
        }
    }
}

proof fn lemma_expand_len(raw: Seq<u8>, i: int, need: int)
    ensures
        spec_expand(raw, i, need).len() <= (if need > 0 { need } else { 0 }),
    decreases raw.len() - i,
{
    if !(need <= 0 || i >= raw.len() || i < 0) {
        let f = raw[i];
        if f & REPEAT_FLAG != 0 {
            if i + 1 < raw.len() {
                let rep = raw[i + 1] as int;
                let k = if rep < need - 1 { rep } else { need - 1 };
                lemma_expand_len(raw, i + 2, need - 1 - k);
            }
        } else {
            lemma_expand_len(raw, i + 1, need - 1);
        }
    }
}

/// Decodes the on-curve bit of up to `num_points` points from flag bytes
/// in which a flag with the repeat bit is followed by a repeat count.
pub fn expand_flags(raw_flags: &[u8], num_points: usize) -> (r: Vec<bool>)
    ensures
        r@ == spec_expand(raw_flags@, 0, num_points as int),
{
    let mut expanded: Vec<bool> = Vec::new();
    let mut i: usize = 0;
    let n = raw_flags.len();
    proof {
        lemma_expand_len(raw_flags@, 0, num_points as int);
    }
    while expanded.len() < num_points && i < n
        invariant
            n == raw_flags@.len(),
            i <= n,
            expanded@.len() <= num_points,
            spec_expand(raw_flags@, 0, num_points as int) == expanded@ + spec_expand(
                raw_flags@,
                i as int,
                num_points - expanded@.len(),
            ),
        ensures
            i <= n,
            expanded@.len() <= num_points,
            expanded@.len() >= num_points || i >= n,
            spec_expand(raw_flags@, 0, num_points as int) == expanded@ + spec_expand(
                raw_flags@,
                i as int,
                num_points - expanded@.len(),
            ),
        decreases n - i,
    {
        let ghost before = expanded@;
        let ghost i0 = i as int;
        let f = raw_flags[i];
        let on = f & ON_CURVE_POINT != 0;
        expanded.push(on);
        i = i + 1;
        if f & REPEAT_FLAG != 0 {
            if i >= n {
                proof {
                    assert(spec_expand(raw_flags@, i as int, num_points - expanded@.len()) =~= Seq::<
                        bool,
                    >::empty());
                    assert(before + seq![on] =~= expanded@ + Seq::<bool>::empty());
                }
                break;
            }
            let repeat = raw_flags[i];
            i = i + 1;
            let ghost need = num_points - before.len();
            let ghost k: int = if (repeat as int) < need - 1 {
                repeat as int
            } else {
                need - 1
            };
            let mut t: u8 = 0;
            while t < repeat
                invariant
                    t <= repeat,
                    expanded@.len() <= num_points,
                    expanded@.len() == before.len() + 1 + (if (t as int) < k { t as int } else { k }),
                    expanded@ =~= before + seq![on] + Seq::new(
                        (expanded@.len() - before.len() - 1) as nat,
                        |q: int| on,
                    ),
                    k == (if (repeat as int) < num_points - before.len() - 1 {
                        repeat as int
                    } else {
                        num_points - before.len() - 1
                    }),
                ensures
                    expanded@.len() == before.len() + 1 + k,
                    expanded@ =~= before + seq![on] + Seq::new(k as nat, |q: int| on),
                decreases repeat - t,
            {
                if expanded.len() >= num_points {
                    break;
                }
                expanded.push(on);
                t = t + 1;
                proof {
                    assert(expanded@ =~= before + seq![on] + Seq::new(
                        (expanded@.len() - before.len() - 1) as nat,
                        |q: int| on,
                    ));
                }
            }
            proof {
                assert(expanded@.len() == before.len() + 1 + k);
                let rest = spec_expand(raw_flags@, i as int, num_points - expanded@.len());
                assert(before + (seq![on] + Seq::new(k as nat, |q: int| on) + rest) =~= expanded@
                    + rest);
            }
        } else {
            proof {
                let rest = spec_expand(raw_flags@, i as int, num_points - expanded@.len());
                assert(before + (seq![on] + rest) =~= expanded@ + rest);
            }
        }
    }
    proof {
        assert(spec_expand(raw_flags@, i as int, num_points - expanded@.len()) =~= Seq::<
            bool,
        >::empty());
        assert(expanded@ + Seq::<bool>::empty() =~= expanded@);
    }
    expanded
}

// ---------------------------------------------------------------------------
// Contours of a simple glyph
// ---------------------------------------------------------------------------

/// Index of the first point of contour `k`.
pub open spec fn contour_start(ep: Seq<u16>, k: int) -> int {
    if k == 0 {
        0
    } else {
        ep[k - 1] + 1
    }
}

/// The contour structure of `g` is usable: end points never decrease and
/// every point has a flag and both coordinates.
pub open spec fn simple_valid(g: SimpleGlyphV) -> bool {
    let np = num_points_of(g.end_pts);
    &&& forall|k: int| 0 < k < g.end_pts.len() ==> g.end_pts[k - 1] <= #[trigger] g.end_pts[k]
    &&& g.flags.len() >= np
    &&& g.xs.len() >= np
    &&& g.ys.len() >= np
}

/// Point `j` of `g`, relative to the glyph's left edge and top; it is on
/// the curve when its flag has the on-curve bit.
pub open spec fn point_of(g: SimpleGlyphV, j: int) -> Point {
    Point {
        x: (g.xs[j] - g.x_min) as i32,
        y: (g.y_max - g.ys[j]) as i32,
        on_curve: g.flags[j] & ON_CURVE_POINT != 0,
    }
}

/// The points of contour `k` of `g`; with `closing`, a non-empty contour
/// repeats its first point at the end.
pub open spec fn contour_points(g: SimpleGlyphV, k: int, closing: bool) -> Seq<Point> {
    let st = contour_start(g.end_pts, k);
    let cnt = g.end_pts[k] + 1 - st;
    let pts = Seq::new(
        (if cnt > 0 {
            cnt
        } else {
            0
        }) as nat,
        |t: int| point_of(g, st + t),
    );
    if closing && pts.len() > 0 {
        pts.push(pts[0])
    } else {
        pts
    }
}

/// The contours of `g`, each tagged with `comp`; none when `g` is not usable.
pub open spec fn simple_contours(
    g: SimpleGlyphV,
    closing: bool,
    comp: Option<CompositeComponent>,
) -> Seq<ContourV> {
    if !simple_valid(g) {
        Seq::empty()
    } else {
        Seq::new(
            g.end_pts.len(),
            |k: int| ContourV { points: contour_points(g, k, closing), component: comp },
        )
    }
}

/// Whether `ep` never decreases.
fn nondecreasing(ep: &Vec<u16>) -> (r: bool)
    ensures
        r == (forall|k: int| 0 < k < ep@.len() ==> ep@[k - 1] <= #[trigger] ep@[k]),
{
    let nc = ep.len();
    let mut k: usize = 1;
    while k < nc
        invariant
            nc == ep@.len(),
            1 <= k,
            forall|q: int| 0 < q < k && q < nc ==> ep@[q - 1] <= #[trigger] ep@[q],
        decreases nc - k,
    {
        if ep[k - 1] > ep[k] {
            return false;
        }
        k = k + 1;
    }
    true
}

/// Builds contour `k` of a usable simple glyph.
fn build_contour(
    g: &SimpleGlyph,
    k: usize,
    closing: bool,
    comp: Option<CompositeComponent>,
) -> (r: Contour)
    requires
        simple_valid(g@),
        k < g@.end_pts.len(),
    ensures
        r@ == (ContourV { points: contour_points(g@, k as int, closing), component: comp }),
{
    let ghost gv = g@;
    let ep = &g.end_pts_of_contours;
    let nc = ep.len();
    let ghost num_points = num_points_of(gv.end_pts);
    let st: usize = if k == 0 {
        0
    } else {
        ep[k - 1] as usize + 1
    };
    let end = ep[k] as usize;
    proof {
        if k > 0 {
            assert(ep@[k - 1] <= ep@[k as int]);
        }
        lemma_nondecreasing(ep@, k as int, nc - 1);
    }
    let mut pts: Vec<Point> = Vec::new();
    let mut j: usize = st;
    while j <= end
        invariant
            gv == g@,
            st <= j <= end + 1,
            end <= 0xFFFF,
            end < num_points,
            num_points <= gv.flags.len(),
            num_points <= gv.xs.len(),
            num_points <= gv.ys.len(),
            pts@ =~= Seq::new((j - st) as nat, |t: int| point_of(gv, st + t)),
        decreases end + 1 - j,
    {
        pts.push(
            Point {
                x: g.x_coordinates[j] as i32 - g._x_min as i32,
                y: g.y_max as i32 - g.y_coordinates[j] as i32,
                on_curve: g.flags[j] & ON_CURVE_POINT != 0,
            },
        );
        j = j + 1;
    }
    if closing && pts.len() > 0 {
        let first = pts[0];
        pts.push(first);
    }
    Contour { points: pts, component: comp }
}

/// Builds the contours of a simple glyph.
fn build_simple_contours(g: &SimpleGlyph, closing: bool, comp: Option<CompositeComponent>) -> (r:
    Vec<Contour>)
    ensures
        r@.map_values(|c: Contour| c@) == simple_contours(g@, closing, comp),
{
    let ep = &g.end_pts_of_contours;
    let nc = ep.len();
    let num_points: usize = if nc == 0 {
        0
    } else {
        ep[nc - 1] as usize + 1
    };
    let ghost gv = g@;
    assert(num_points == num_points_of(gv.end_pts));
    let valid = nondecreasing(ep) && g.flags.len() >= num_points && g.x_coordinates.len() >= num_points
        && g.y_coordinates.len() >= num_points;
    assert(valid == simple_valid(gv));
    if !valid {
        let r: Vec<Contour> = Vec::new();
        proof {
            assert(r@.map_values(|c: Contour| c@) =~= Seq::<ContourV>::empty());
        }
        return r;
    }
    let mut contours: Vec<Contour> = Vec::new();
    let mut k: usize = 0;
    while k < nc
        invariant
            gv == g@,
            simple_valid(gv),
            nc == gv.end_pts.len(),
            k <= nc,
            contours@.len() == k,
            forall|q: int|
                0 <= q < k ==> (#[trigger] contours@[q])@ == (ContourV {
                    points: contour_points(gv, q, closing),
                    component: comp,
                }),
        decreases nc - k,
    {
        let c = build_contour(g, k, closing, comp);
        contours.push(c);
        k = k + 1;
    }
    proof {
        assert(contours@.map_values(|c: Contour| c@) =~= simple_contours(gv, closing, comp));
    }
    contours
}

proof fn lemma_nondecreasing(s: Seq<u16>, a: int, b: int)
    requires
        0 <= a <= b < s.len(),
        forall|q: int| 0 < q < s.len() ==> s[q - 1] <= #[trigger] s[q],
    ensures
        s[a] <= s[b],
    decreases b - a,
{
    if a < b {
        lemma_nondecreasing(s, a, b - 1);
    }
}

// ---------------------------------------------------------------------------
// Composite glyphs
// ---------------------------------------------------------------------------

/// The contours contributed by components `comps` of a composite glyph
/// reached through the glyphs `path`: a simple component contributes its
/// closed contours tagged with the component; a composite component
/// contributes its own components' contours, unless it is already on the
/// path (a cycle); an empty or unreadable one contributes nothing.
pub open spec fn flatten(
    s: Seq<u8>,
    loca: LocaTable,
    glyf: TableRecord,
    ng: u16,
    comps: Seq<CompositeComponent>,
    path: Seq<u16>,
) -> Seq<ContourV>
    decreases (if path.len() < ng { ng - path.len() } else { 0 }), comps.len(),
{
    if comps.len() == 0 {
        Seq::empty()
    } else {
        let c = comps.last();
        let part = match glyph_or_empty(s, loca, glyf, ng, c.glyph_index as int) {
            ProtoGlyphV::Simple(g) => simple_contours(g, true, Some(c)),
            ProtoGlyphV::Composite(cg) => if !path.contains(c.glyph_index) && path.len() < ng {
                flatten(s, loca, glyf, ng, cg.components, path.push(c.glyph_index))
            } else {
                Seq::empty()
            },
            ProtoGlyphV::Empty => Seq::empty(),
        };
        flatten(s, loca, glyf, ng, comps.drop_last(), path) + part
    }
}

/// The outline of glyph `id`, whose record is `p`.
pub open spec fn outline_of(
    s: Seq<u8>,
    loca: LocaTable,
    glyf: TableRecord,
    ng: u16,
    id: u16,
    p: ProtoGlyphV,
) -> OutlineV {
    match p {
        ProtoGlyphV::Simple(g) => OutlineV { contours: simple_contours(g, false, None), y_max: g.y_max },
        ProtoGlyphV::Composite(cg) => OutlineV {
            contours: flatten(s, loca, glyf, ng, cg.components, seq![id]),
            y_max: cg.y_max,
        },
        ProtoGlyphV::Empty => OutlineV { contours: Seq::empty(), y_max: 0 },
    }
}

proof fn lemma_map_append(a: Seq<Contour>, b: Seq<Contour>)
    ensures
        (a + b).map_values(|c: Contour| c@) == a.map_values(|c: Contour| c@) + b.map_values(
            |c: Contour| c@,
        ),
{
    assert((a + b).map_values(|c: Contour| c@) =~= a.map_values(|c: Contour| c@) + b.map_values(
        |c: Contour| c@,
    ));
}

/// Whether `x` occurs in `v`.
fn contains_u16(v: &Vec<u16>, x: u16) -> (r: bool)
    ensures
        r == v@.contains(x),
{
    let mut i: usize = 0;
    while i < v.len()
        invariant
            i <= v@.len(),
            forall|j: int| 0 <= j < i ==> v@[j] != x,
        decreases v@.len() - i,
    {
        if v[i] == x {
            return true;
        }
        i = i + 1;
    }
    false
}

/// Appends to `master` the contours contributed by components `comps` of a
/// composite glyph reached through the glyphs `path`.
pub fn load_from_parent(
    master: &mut Vec<Contour>,
    comps: &Vec<CompositeComponent>,
    b: &[u8],
    loca: &LocaTable,
    glyf: &TableRecord,
    num_glyphs: u16,
    path: &mut Vec<u16>,
)
    ensures
        final(master)@.map_values(|c: Contour| c@) == old(master)@.map_values(|c: Contour| c@)
            + flatten(b@, *loca, *glyf, num_glyphs, comps@, old(path)@),
        final(path)@ == old(path)@,
    decreases (if old(path)@.len() < num_glyphs { num_glyphs - old(path)@.len() } else { 0 }),
{
    let ghost m0 = master@.map_values(|c: Contour| c@);
    let ghost p0 = path@;
    let n = comps.len();
    let mut i: usize = 0;
    proof {
        assert(comps@.take(0) =~= Seq::<CompositeComponent>::empty());
        assert(m0 + Seq::<ContourV>::empty() =~= m0);
    }
    while i < n
        invariant
            n == comps@.len(),
            i <= n,
            path@ == p0,
            p0 == old(path)@,
            master@.map_values(|c: Contour| c@) == m0 + flatten(
                b@,
                *loca,
                *glyf,
                num_glyphs,
                comps@.take(i as int),
                p0,
            ),
        decreases n - i,
    {
        let c = comps[i];
        let ghost before = master@;
        let child = parse_glyph_or_empty(b, loca, glyf, num_glyphs, c.glyph_index as u32);
        match child {
            ProtoGlyph::Simple(g) => {
                let mut cs = build_simple_contours(&g, true, Some(c));
                let ghost added = cs@;
                master.append(&mut cs);
                proof {
                    lemma_map_append(before, added);
                }
            },
            ProtoGlyph::Composite(cg) => {
                if !contains_u16(path, c.glyph_index) && path.len() < num_glyphs as usize {
                    path.push(c.glyph_index);
                    load_from_parent(master, &cg.components, b, loca, glyf, num_glyphs, path);
                    path.pop();
                    proof {
                        assert(path@ =~= p0);
                    }
                } else {
                    proof {
                        assert(master@.map_values(|c: Contour| c@) =~= before.map_values(
                            |c: Contour| c@,
                        ) + Seq::<ContourV>::empty());
                    }
                }
            },
            ProtoGlyph::Empty => {
                proof {
                    assert(master@.map_values(|c: Contour| c@) =~= before.map_values(
                        |c: Contour| c@,
                    ) + Seq::<ContourV>::empty());
                }
            },
        }
        proof {
            assert(comps@.take(i + 1).drop_last() =~= comps@.take(i as int));
            assert(comps@.take(i + 1).last() == c);
        }
        i = i + 1;
    }
    proof {
        assert(comps@.take(n as int) =~= comps@);
    }
}

/// Resolves the record `proto` of glyph `id` into its outline.
pub fn resolve_outline(
    b: &[u8],
    loca: &LocaTable,
    glyf: &TableRecord,
    num_glyphs: u16,
    id: u16,
    proto: &ProtoGlyph,
) -> (r: GlyphOutline)
    ensures
        r@ == outline_of(b@, *loca, *glyf, num_glyphs, id, proto@),
{
    match proto {
        ProtoGlyph::Simple(g) => {
            let contours = build_simple_contours(g, false, None);
            GlyphOutline { contours, y_max: g.y_max }
        },
        ProtoGlyph::Composite(cg) => {
            let mut contours: Vec<Contour> = Vec::new();
            let mut path: Vec<u16> = Vec::new();
            path.push(id);
            proof {
                assert(contours@.map_values(|c: Contour| c@) =~= Seq::<ContourV>::empty());
                assert(path@ =~= seq![id]);
            }
            load_from_parent(&mut contours, &cg.components, b, loca, glyf, num_glyphs, &mut path);
            proof {
                let f = flatten(b@, *loca, *glyf, num_glyphs, cg.components@, seq![id]);
                assert(Seq::<ContourV>::empty() + f =~= f);
            }
            GlyphOutline { contours, y_max: cg.y_max }
        },
        ProtoGlyph::Empty => {
            let r = GlyphOutline { contours: Vec::new(), y_max: 0 };
            proof {
                assert(r@.contours =~= Seq::<ContourV>::empty());
            }
            r
        },
    }
}

} // verus!
