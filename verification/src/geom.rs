//! Fixed-point plane geometry: points, boxes, and point-to-segment distance.
//!
//! All coordinates are integers counted in thousandths of a canvas unit, so
//! every geometric predicate is exact integer arithmetic.

use vstd::prelude::*;

verus! {

/// Fixed-point sub-steps per canvas unit.
pub const UNIT: i64 = 1000;

/// Coordinates are kept within this bound (in sub-steps), so that the
/// products taken by the hit tests fit comfortably in `i128`.
pub const COORD_LIMIT: i64 = 1_000_000_000;

/// How close (in sub-steps) a point must be to an edge segment to hit it:
/// 8 canvas units.
pub const EDGE_HIT_DISTANCE: i64 = 8000;

/// A point of the plane, in sub-steps. Used both for world (canvas)
/// coordinates and for screen coordinates.
#[derive(Clone, Copy, Debug, PartialEq, Eq, Structural)]
pub struct Pt {
    pub x: i64,
    pub y: i64,
}

/// The size of an axis-aligned box, in sub-steps.
#[derive(Clone, Copy, Debug, PartialEq, Eq, Structural)]
pub struct BoxSize {
    pub w: i64,
    pub h: i64,
}

/// A coordinate small enough for the hit tests' arithmetic.
pub open spec fn coord_ok(v: i64) -> bool {
    -COORD_LIMIT <= v <= COORD_LIMIT
}

/// A point whose coordinates are within [`COORD_LIMIT`].
pub open spec fn pt_ok(p: Pt) -> bool {
    coord_ok(p.x) && coord_ok(p.y)
}

/// A box size that is non-negative and within [`COORD_LIMIT`].
pub open spec fn size_ok(s: BoxSize) -> bool {
    0 <= s.w <= COORD_LIMIT && 0 <= s.h <= COORD_LIMIT
}

/// Whether `p` lies in the box of size `size` centered at `center`
/// (boundary included). The box spans `center ± size/2`, with the halves
/// rounded toward zero as integer division does.
pub open spec fn in_box(p: Pt, center: Pt, size: BoxSize) -> bool {
    &&& center.x - size.w / 2 <= p.x <= center.x + size.w / 2
    &&& center.y - size.h / 2 <= p.y <= center.y + size.h / 2
}

/// Whether `p` lies within distance `thr` of the segment from `a` to `b`:
/// the perpendicular distance to the segment, with the nearest point clamped
/// to the segment, is below `thr`. Stated exactly over integers by cases on
/// the clamped parameter `t = dot(p-a, b-a) / |b-a|^2`:
/// near the `a` end (`t <= 0`), near the `b` end (`t >= 1`), or in between,
/// where the squared distance is `(|ap|^2 |ab|^2 - dot^2) / |ab|^2`.
/// The comparison is strict, as in `distance < thr`.
pub open spec fn near_segment(a: Pt, b: Pt, p: Pt, thr: int) -> bool {
    let apx = p.x - a.x;
    let apy = p.y - a.y;
    let abx = b.x - a.x;
    let aby = b.y - a.y;
    let dot = apx * abx + apy * aby;
    let ab2 = abx * abx + aby * aby;
    let ap2 = apx * apx + apy * apy;
    let bpx = p.x - b.x;
    let bpy = p.y - b.y;
    let bp2 = bpx * bpx + bpy * bpy;
    if ab2 == 0 {
        ap2 < thr * thr
    } else if dot <= 0 {
        ap2 < thr * thr
    } else if dot >= ab2 {
        bp2 < thr * thr
    } else {
        ap2 * ab2 - dot * dot < thr * thr * ab2
    }
}

/// Whether `p` lies in the axis-aligned rectangle spanned by the two corner
/// points `c1` and `c2` (in world coordinates, boundary included).
pub open spec fn in_rect(p: Pt, c1: Pt, c2: Pt) -> bool {
    let lo_x = if c1.x <= c2.x { c1.x } else { c2.x };
    let hi_x = if c1.x <= c2.x { c2.x } else { c1.x };
    let lo_y = if c1.y <= c2.y { c1.y } else { c2.y };
    let hi_y = if c1.y <= c2.y { c2.y } else { c1.y };
    lo_x <= p.x <= hi_x && lo_y <= p.y <= hi_y
}

/// Point-in-box test against a box of size `size` centered at `center`.
pub fn hit_box(p: Pt, center: Pt, size: BoxSize) -> (r: bool)
    requires
        pt_ok(p),
        pt_ok(center),
        size_ok(size),
    ensures
        r == in_box(p, center, size),
{
    let half_w = size.w / 2;
    let half_h = size.h / 2;
    center.x - half_w <= p.x && p.x <= center.x + half_w && center.y - half_h <= p.y && p.y
        <= center.y + half_h
}

/// Point-in-rectangle test against the rectangle spanned by `c1` and `c2`.
pub fn hit_rect(p: Pt, c1: Pt, c2: Pt) -> (r: bool)
    ensures
        r == in_rect(p, c1, c2),
{
    let lo_x = if c1.x <= c2.x { c1.x } else { c2.x };
    let hi_x = if c1.x <= c2.x { c2.x } else { c1.x };
    let lo_y = if c1.y <= c2.y { c1.y } else { c2.y };
    let hi_y = if c1.y <= c2.y { c2.y } else { c1.y };
    lo_x <= p.x && p.x <= hi_x && lo_y <= p.y && p.y <= hi_y
}

/// Whether `p` is within distance `thr` of the segment from `a` to `b`.
pub fn hit_segment(a: Pt, b: Pt, p: Pt, thr: i64) -> (r: bool)
    requires
        pt_ok(a),
        pt_ok(b),
        pt_ok(p),
        0 <= thr <= COORD_LIMIT,
    ensures
        r == near_segment(a, b, p, thr as int),
{
    let apx: i128 = p.x as i128 - a.x as i128;
    let apy: i128 = p.y as i128 - a.y as i128;
    let abx: i128 = b.x as i128 - a.x as i128;
    let aby: i128 = b.y as i128 - a.y as i128;
    proof {
        mul_bound(apx as int, abx as int, 2 * COORD_LIMIT as int);
        mul_bound(apy as int, aby as int, 2 * COORD_LIMIT as int);
        mul_bound(abx as int, abx as int, 2 * COORD_LIMIT as int);
        mul_bound(aby as int, aby as int, 2 * COORD_LIMIT as int);
        mul_bound(apx as int, apx as int, 2 * COORD_LIMIT as int);
        mul_bound(apy as int, apy as int, 2 * COORD_LIMIT as int);
    }
    let dot: i128 = apx * abx + apy * aby;
    let ab2: i128 = abx * abx + aby * aby;
    let ap2: i128 = apx * apx + apy * apy;
    proof {
        mul_bound(thr as int, thr as int, COORD_LIMIT as int);
    }
    let thr2: i128 = (thr as i128) * (thr as i128);
    if ab2 == 0 {
        ap2 < thr2
    } else if dot <= 0 {
        ap2 < thr2
    } else if dot >= ab2 {
        let bpx: i128 = p.x as i128 - b.x as i128;
        let bpy: i128 = p.y as i128 - b.y as i128;
        proof {
            mul_bound(bpx as int, bpx as int, 2 * COORD_LIMIT as int);
            mul_bound(bpy as int, bpy as int, 2 * COORD_LIMIT as int);
        }
        let bp2: i128 = bpx * bpx + bpy * bpy;
        bp2 < thr2
    } else {
        proof {
            let lim: int = 8 * (COORD_LIMIT as int) * (COORD_LIMIT as int);
            assert(0 <= ap2 <= lim);
            assert(0 <= ab2 <= lim);
            assert(-lim <= dot <= lim);
            assert(0 <= thr2 <= lim);
            mul_bound(ap2 as int, ab2 as int, lim);
            mul_bound(dot as int, dot as int, lim);
            mul_bound(thr2 as int, ab2 as int, lim);
        }
        ap2 * ab2 - dot * dot < thr2 * ab2
    }
}

/// `|a| <= ba` and `|c| <= bc` bound the product `a * c` by `ba * bc`.
pub(crate) proof fn mul_bound2(a: int, c: int, ba: int, bc: int)
    requires
        -ba <= a <= ba,
        -bc <= c <= bc,
        0 <= ba,
        0 <= bc,
    ensures
        -(ba * bc) <= a * c <= ba * bc,
        a == c ==> 0 <= a * c,
{
    assert(-(ba * bc) <= a * c <= ba * bc && (a == c ==> 0 <= a * c)) by (nonlinear_arith)
        requires
            -ba <= a <= ba,
            -bc <= c <= bc,
            0 <= ba,
            0 <= bc,
    ;
}

/// `|a| <= b` and `|c| <= b` bound the product `a * c` by `b * b`.
pub(crate) proof fn mul_bound(a: int, c: int, b: int)
    requires
        -b <= a <= b,
        -b <= c <= b,
        0 <= b,
    ensures
        -(b * b) <= a * c <= b * b,
        a == c ==> 0 <= a * c,
{
    assert(-(b * b) <= a * c <= b * b && (a == c ==> 0 <= a * c)) by (nonlinear_arith)
        requires
            -b <= a <= b,
            -b <= c <= b,
            0 <= b,
    ;
}

} // verus!
