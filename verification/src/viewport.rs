//! The viewport transform: pan and zoom state and the world/screen
//! conversion built on exact rational arithmetic.
//!
//! `worldToScreen(p) = p * zoom + pan` (with screen coordinates taken
//! relative to the viewport origin), and `screenToWorld` is its inverse.
//! Pan accumulates raw screen-space deltas; zoom applies a multiplicative
//! delta clamped to `[1/10, 5]` per event and recomputes pan so the world
//! point under the pointer stays fixed on screen.
//!
//! Pan and zoom are kept as exact fractions. An operation whose exact
//! result no longer fits the fraction bounds even in lowest terms leaves
//! the state unchanged and reports failure; the contracts state precisely
//! when that happens.

use vstd::prelude::*;

use crate::geom::COORD_LIMIT;
use crate::geom::Pt;
use crate::geom::mul_bound2;
use crate::edit::clamp_coord;

verus! {

/// Bound on fraction numerators.
pub const NUM_LIMIT: i64 = 100_000_000_000_000_000;

/// Bound on fraction denominators.
pub const DEN_LIMIT: i64 = 1_000_000_000;

/// Bound on screen coordinates and pan deltas fed to the viewport.
pub const SCREEN_LIMIT: i64 = 10_000_000_000;

/// Bound on the zoom factor's value: the zoom is kept between
/// `1 / ZOOM_VALUE_LIMIT` and `ZOOM_VALUE_LIMIT`.
pub const ZOOM_VALUE_LIMIT: i64 = 1_000_000;

/// An exact fraction with a positive denominator.
#[derive(Clone, Copy, Debug, PartialEq, Eq, Structural)]
pub struct Frac {
    pub num: i64,
    pub den: i64,
}

/// A mathematical rational, as a numerator/denominator pair of integers.
pub ghost struct Rat {
    pub n: int,
    pub d: int,
}

impl View for Frac {
    type V = Rat;

    open spec fn view(&self) -> Rat {
        Rat { n: self.num as int, d: self.den as int }
    }
}

/// A positive denominator: the pair denotes `n / d`.
pub open spec fn rat_wf(a: Rat) -> bool {
    a.d > 0
}

/// Equality of the denoted rationals, by cross-multiplication.
pub open spec fn rat_eq(a: Rat, b: Rat) -> bool {
    a.n * b.d == b.n * a.d
}

pub open spec fn rat_mul(a: Rat, b: Rat) -> Rat {
    Rat { n: a.n * b.n, d: a.d * b.d }
}

pub open spec fn rat_add(a: Rat, b: Rat) -> Rat {
    Rat { n: a.n * b.d + b.n * a.d, d: a.d * b.d }
}

pub open spec fn rat_sub(a: Rat, b: Rat) -> Rat {
    Rat { n: a.n * b.d - b.n * a.d, d: a.d * b.d }
}

pub open spec fn rat_int(i: int) -> Rat {
    Rat { n: i, d: 1 }
}

pub open spec fn rat_one() -> Rat {
    Rat { n: 1, d: 1 }
}

/// The well-formed fractions the viewport stores.
pub open spec fn frac_wf(f: Frac) -> bool {
    0 < f.den <= DEN_LIMIT && -NUM_LIMIT <= f.num <= NUM_LIMIT
}

/// Greatest common divisor, by Euclid's recursion.
pub open spec fn gcd_nat(a: nat, b: nat) -> nat
    decreases b,
{
    if b == 0 {
        a
    } else {
        gcd_nat(b, a % b)
    }
}

/// Whether `d` divides `x`.
pub open spec fn divides(d: int, x: int) -> bool {
    exists|k: int| x == #[trigger] (d * k)
}

/// The gcd divides both arguments and is positive when either is.
proof fn lemma_gcd_divides(a: nat, b: nat)
    ensures
        divides(gcd_nat(a, b) as int, a as int),
        divides(gcd_nat(a, b) as int, b as int),
        a > 0 || b > 0 ==> gcd_nat(a, b) > 0,
    decreases b,
{
    let g = gcd_nat(a, b);
    if b == 0 {
        assert(a as int == g as int * 1);
        assert(b as int == g as int * 0);
    } else {
        lemma_gcd_divides(b, a % b);
        let k1 = choose|k: int| b as int == #[trigger] (g as int * k);
        let k2 = choose|k: int| (a % b) as int == #[trigger] (g as int * k);
        vstd::arithmetic::div_mod::lemma_fundamental_div_mod(a as int, b as int);
        let q = a as int / b as int;
        assert(a as int == g as int * (k1 * q + k2)) by (nonlinear_arith)
            requires
                b as int == g as int * k1,
                (a % b) as int == g as int * k2,
                a as int == b as int * q + (a as int % b as int),
                (a % b) as int == a as int % b as int,
        ;
    }
}

/// Euclid's algorithm, computing [`gcd_nat`].
fn gcd_u128(a0: u128, b0: u128) -> (g: u128)
    ensures
        g as nat == gcd_nat(a0 as nat, b0 as nat),
{
    let mut a = a0;
    let mut b = b0;
    while b > 0
        invariant
            gcd_nat(a as nat, b as nat) == gcd_nat(a0 as nat, b0 as nat),
        decreases b,
    {
        let r = a % b;
        proof {
            assert(gcd_nat(a as nat, b as nat) == gcd_nat(b as nat, (a % b) as nat));
        }
        a = b;
        b = r;
    }
    a
}

/// Absolute value, as a natural number.
pub open spec fn abs_int(n: int) -> nat {
    if n >= 0 {
        n as nat
    } else {
        (-n) as nat
    }
}

/// The lowest-terms form of `n / d` (for positive `d`).
pub open spec fn reduced_frac_of(n: int, d: int) -> Rat {
    let g = gcd_nat(abs_int(n), d as nat) as int;
    Rat {
        n: if n >= 0 {
            abs_int(n) as int / g
        } else {
            -(abs_int(n) as int / g)
        },
        d: d / g,
    }
}

/// The lowest-terms form denotes the same rational: with it, outcomes
/// stated through `reduced_frac_of` (as the controller's navigation
/// contract states them) chain with the rational-level laws such as
/// [`lemma_zoom_round_trip`].
pub proof fn lemma_reduced_frac_eq(n: int, d: int)
    requires
        d > 0,
    ensures
        rat_wf(reduced_frac_of(n, d)),
        rat_eq(reduced_frac_of(n, d), Rat { n: n, d: d }),
{
    let m = abs_int(n) as int;
    let g = gcd_nat(abs_int(n), d as nat) as int;
    lemma_gcd_divides(abs_int(n), d as nat);
    let k1 = choose|k: int| m == #[trigger] (g * k);
    let k2 = choose|k: int| d == #[trigger] (g * k);
    assert(k1 >= 0 && k2 > 0 && k1 * g == m && k2 * g == d) by (nonlinear_arith)
        requires
            m == g * k1,
            d == g * k2,
            g > 0,
            m >= 0,
            d > 0,
    ;
    vstd::arithmetic::div_mod::lemma_div_by_multiple(k1, g);
    vstd::arithmetic::div_mod::lemma_div_by_multiple(k2, g);
    assert(m / g == k1 && d / g == k2);
    let f = reduced_frac_of(n, d);
    assert(f.d == k2 && (n >= 0 ==> f.n == k1) && (n < 0 ==> f.n == -k1));
    assert(f.n * d == n * f.d) by (nonlinear_arith)
        requires
            k1 * g == m,
            k2 * g == d,
            g > 0,
            n >= 0 ==> f.n == k1 && m == n,
            n < 0 ==> f.n == -k1 && m == -n,
            f.d == k2,
    ;
}

/// Whether the fraction `n / d` still fits the fraction bounds once
/// brought to lowest terms.
pub open spec fn reduced_fits(n: int, d: int) -> bool {
    d > 0 && {
        let g = gcd_nat(abs_int(n), d as nat) as int;
        abs_int(n) as int / g <= NUM_LIMIT && d / g <= DEN_LIMIT
    }
}

/// Bring `n / d` to lowest terms. Returns an equivalent well-formed
/// fraction, or `None` exactly when even the lowest-terms form exceeds the
/// fraction bounds.
fn reduce_frac(n: i128, d: i128) -> (r: Option<Frac>)
    requires
        0 < d <= 0x4000_0000_0000_0000_0000_0000_0000_0000,
        -0x4000_0000_0000_0000_0000_0000_0000_0000 <= n
            <= 0x4000_0000_0000_0000_0000_0000_0000_0000,
    ensures
        (r is Some) == reduced_fits(n as int, d as int),
        r matches Some(f) ==> frac_wf(f) && rat_eq(f@, Rat { n: n as int, d: d as int }) && (n > 0
            ==> f.num > 0) && (n == 0 ==> f.num == 0) && (n < 0 ==> f.num < 0) && f@
            == reduced_frac_of(n as int, d as int),
{
    let m: u128 = if n >= 0 {
        n as u128
    } else {
        (-n) as u128
    };
    let du: u128 = d as u128;
    let g = gcd_u128(m, du);
    proof {
        lemma_gcd_divides(m as nat, du as nat);
    }
    assert(g > 0);
    let nq = m / g;
    let dq = du / g;
    proof {
        let gi = g as int;
        let k1 = choose|k: int| m as int == #[trigger] (gi * k);
        let k2 = choose|k: int| du as int == #[trigger] (gi * k);
        assert(k1 >= 0 && k2 >= 0 && k1 * gi == m as int && k2 * gi == du as int)
            by (nonlinear_arith)
            requires
                m as int == gi * k1,
                du as int == gi * k2,
                gi > 0,
                m as int >= 0,
                du as int > 0,
        ;
        vstd::arithmetic::div_mod::lemma_div_by_multiple(k1, gi);
        vstd::arithmetic::div_mod::lemma_div_by_multiple(k2, gi);
        assert(nq as int == k1);
        assert(dq as int == k2);
        assert(dq > 0 && (m > 0 ==> nq > 0)) by (nonlinear_arith)
            requires
                dq as int * gi == du as int,
                nq as int * gi == m as int,
                du > 0,
                gi > 0,
                dq as int == k2,
                nq as int == k1,
                k1 * gi == m as int,
                k2 * gi == du as int,
        ;
    }
    if nq > NUM_LIMIT as u128 || dq > DEN_LIMIT as u128 {
        return None;
    }
    let signed_num: i64 = if n >= 0 {
        nq as i64
    } else {
        -(nq as i64)
    };
    let f = Frac { num: signed_num, den: dq as i64 };
    proof {
        let gi = g as int;
        assert(f@.n * (d as int) == (n as int) * f@.d) by (nonlinear_arith)
            requires
                nq as int * gi == m as int,
                dq as int * gi == du as int,
                du as int == d as int,
                gi > 0,
                n >= 0 ==> f@.n == nq as int && m as int == n as int,
                n < 0 ==> f@.n == -(nq as int) && m as int == -(n as int),
                f@.d == dq as int,
        ;
    }
    Some(f)
}

/// Floor division of `n` by a positive `d` (the Euclidean quotient).
fn floor_div_i128(n: i128, d: i128) -> (q: i128)
    requires
        0 < d <= 0x4000_0000_0000_0000_0000_0000_0000_0000,
        -0x4000_0000_0000_0000_0000_0000_0000_0000 <= n
            <= 0x4000_0000_0000_0000_0000_0000_0000_0000,
    ensures
        q == n as int / d as int,
{
    if n >= 0 {
        let qu = (n as u128) / (d as u128);
        qu as i128
    } else {
        let m = (-n) as u128;
        let du = d as u128;
        let t = (m + du - 1) / du;
        proof {
            let ti = t as int;
            let mi = m as int;
            let di = d as int;
            vstd::arithmetic::div_mod::lemma_fundamental_div_mod(mi + di - 1, di);
            let rr = (mi + di - 1) % di;
            assert(0 <= rr < di);
            assert(mi + di - 1 == di * ti + rr);
            let r2 = di * ti - mi;
            assert(0 <= r2 < di);
            assert(n as int == di * (-ti) + r2) by (nonlinear_arith)
                requires
                    r2 == di * ti - mi,
                    n as int == -mi,
            ;
            vstd::arithmetic::div_mod::lemma_fundamental_div_mod_converse(n as int, di, -ti, r2);
        }
        -(t as i128)
    }
}

/// The pan/zoom state of the canvas.
#[derive(Clone, Copy, Debug, PartialEq, Eq, Structural)]
pub struct Viewport {
    pub pan_x: Frac,
    pub pan_y: Frac,
    pub zoom: Frac,
}

/// The world coordinate under screen coordinate `s`: `(s - pan) / zoom`.
pub open spec fn world_rat(s: int, pan: Rat, zoom: Rat) -> Rat {
    Rat { n: (s * pan.d - pan.n) * zoom.d, d: pan.d * zoom.n }
}

/// The screen coordinate of world coordinate `w`: `w * zoom + pan`.
pub open spec fn screen_rat(w: Rat, pan: Rat, zoom: Rat) -> Rat {
    rat_add(rat_mul(w, zoom), pan)
}

/// The floor of the world coordinate under screen coordinate `s`.
pub open spec fn world_floor(s: int, pan: Rat, zoom: Rat) -> int {
    ((s * pan.d - pan.n) * zoom.d) / (pan.d * zoom.n)
}

/// The floor of the screen coordinate of world coordinate `w`.
pub open spec fn screen_floor(w: int, pan: Rat, zoom: Rat) -> int {
    (w * zoom.n * pan.d + pan.n * zoom.d) / (zoom.d * pan.d)
}

/// A zoom delta clamped to `[1/10, 5]`.
pub open spec fn clamp_delta(d: Rat) -> Rat {
    if d.n * 10 < d.d {
        Rat { n: 1, d: 10 }
    } else if d.n > d.d * 5 {
        Rat { n: 5, d: 1 }
    } else {
        d
    }
}

/// The new pan after zooming by `d` with the pointer at screen coordinate
/// `s`, over the common denominator `pan.d * d.d`. The value denoted is
/// `s * (1 - d) + pan * d`, which keeps the world point under `s` fixed on
/// screen (see [`lemma_zoom_keeps_pointer`]).
pub open spec fn zoom_step_pan(pan: Rat, d: Rat, s: int) -> Rat {
    Rat { n: s * (d.d - d.n) * pan.d + pan.n * d.n, d: pan.d * d.d }
}

/// A screen-space clamp of an integer.
pub open spec fn clamp_screen(v: int) -> i64 {
    if v < -SCREEN_LIMIT {
        (-SCREEN_LIMIT) as i64
    } else if v > SCREEN_LIMIT {
        SCREEN_LIMIT
    } else {
        v as i64
    }
}

impl Viewport {
    /// Pan and zoom fractions are well-formed and the zoom is positive.
    pub open spec fn wf(self) -> bool {
        &&& frac_wf(self.pan_x)
        &&& frac_wf(self.pan_y)
        &&& frac_wf(self.zoom)
        &&& self.zoom.num > 0
        &&& self.zoom.num <= ZOOM_VALUE_LIMIT * self.zoom.den
        &&& self.zoom.den <= ZOOM_VALUE_LIMIT * self.zoom.num
    }

    /// The identity viewport: no pan, zoom `1`.
    pub fn new() -> (r: Viewport)
        ensures
            r.wf(),
            r.pan_x@ == (Rat { n: 0, d: 1 }),
            r.pan_y@ == (Rat { n: 0, d: 1 }),
            r.zoom@ == (Rat { n: 1, d: 1 }),
    {
        Viewport {
            pan_x: Frac { num: 0, den: 1 },
            pan_y: Frac { num: 0, den: 1 },
            zoom: Frac { num: 1, den: 1 },
        }
    }

    /// Accumulate a raw screen-space pan delta (not scaled by zoom). Fails
    /// and leaves the state unchanged exactly when a new pan no longer
    /// fits the fraction bounds in lowest terms.
    pub fn pan_by(&mut self, dx: i64, dy: i64) -> (r: bool)
        requires
            old(self).wf(),
            -SCREEN_LIMIT <= dx <= SCREEN_LIMIT,
            -SCREEN_LIMIT <= dy <= SCREEN_LIMIT,
        ensures
            final(self).wf(),
            r == (reduced_fits(
                old(self).pan_x@.n + dx * old(self).pan_x@.d,
                old(self).pan_x@.d,
            ) && reduced_fits(old(self).pan_y@.n + dy * old(self).pan_y@.d, old(self).pan_y@.d)),
            r ==> rat_eq(final(self).pan_x@, rat_add(old(self).pan_x@, rat_int(dx as int)))
                && rat_eq(final(self).pan_y@, rat_add(old(self).pan_y@, rat_int(dy as int)))
                && final(self).zoom == old(self).zoom && final(self).pan_x@ == reduced_frac_of(
                old(self).pan_x@.n + dx * old(self).pan_x@.d,
                old(self).pan_x@.d,
            ) && final(self).pan_y@ == reduced_frac_of(
                old(self).pan_y@.n + dy * old(self).pan_y@.d,
                old(self).pan_y@.d,
            ),
            !r ==> *final(self) == *old(self),
    {
        proof {
            mul_bound2(dx as int, self.pan_x.den as int, SCREEN_LIMIT as int, DEN_LIMIT as int);
            mul_bound2(dy as int, self.pan_y.den as int, SCREEN_LIMIT as int, DEN_LIMIT as int);
        }
        let nx: i128 = self.pan_x.num as i128 + dx as i128 * self.pan_x.den as i128;
        let ny: i128 = self.pan_y.num as i128 + dy as i128 * self.pan_y.den as i128;
        let fx = reduce_frac(nx, self.pan_x.den as i128);
        let fy = reduce_frac(ny, self.pan_y.den as i128);
        match (fx, fy) {
            (Some(px), Some(py)) => {
                self.pan_x = px;
                self.pan_y = py;
                proof {
                    let opx = old(self).pan_x@;
                    let opy = old(self).pan_y@;
                    let npx = self.pan_x@;
                    let npy = self.pan_y@;
                    assert(rat_eq(npx, rat_add(opx, rat_int(dx as int)))) by (nonlinear_arith)
                        requires
                            rat_eq(npx, Rat { n: nx as int, d: opx.d }),
                            nx as int == opx.n + dx * opx.d,
                            opx.d > 0,
                            npx.d > 0,
                    ;
                    assert(rat_eq(npy, rat_add(opy, rat_int(dy as int)))) by (nonlinear_arith)
                        requires
                            rat_eq(npy, Rat { n: ny as int, d: opy.d }),
                            ny as int == opy.n + dy * opy.d,
                            opy.d > 0,
                            npy.d > 0,
                    ;
                }
                true
            },
            _ => false,
        }
    }

    /// The world point under screen point `s`, floored to fixed-point
    /// coordinates and saturated into the coordinate range.
    pub fn screen_to_world(&self, s: Pt) -> (w: Pt)
        requires
            self.wf(),
            -SCREEN_LIMIT <= s.x <= SCREEN_LIMIT,
            -SCREEN_LIMIT <= s.y <= SCREEN_LIMIT,
        ensures
            w.x == clamp_coord(world_floor(s.x as int, self.pan_x@, self.zoom@)),
            w.y == clamp_coord(world_floor(s.y as int, self.pan_y@, self.zoom@)),
            crate::geom::pt_ok(w),
    {
        let x = self.screen_to_world_axis(s.x, self.pan_x);
        let y = self.screen_to_world_axis(s.y, self.pan_y);
        Pt { x, y }
    }

    /// One axis of [`Self::screen_to_world`].
    fn screen_to_world_axis(&self, s: i64, pan: Frac) -> (w: i64)
        requires
            self.wf(),
            frac_wf(pan),
            -SCREEN_LIMIT <= s <= SCREEN_LIMIT,
        ensures
            w == clamp_coord(world_floor(s as int, pan@, self.zoom@)),
            crate::geom::coord_ok(w),
    {
        proof {
            mul_bound2(s as int, pan.den as int, SCREEN_LIMIT as int, DEN_LIMIT as int);
            mul_bound2(
                s as int * pan.den as int - pan.num as int,
                self.zoom.den as int,
                SCREEN_LIMIT as int * DEN_LIMIT as int + NUM_LIMIT as int,
                DEN_LIMIT as int,
            );
            mul_bound2(pan.den as int, self.zoom.num as int, DEN_LIMIT as int, NUM_LIMIT as int);
        }
        let n: i128 = (s as i128 * pan.den as i128 - pan.num as i128) * self.zoom.den as i128;
        let d: i128 = pan.den as i128 * self.zoom.num as i128;
        proof {
            assert(d > 0) by (nonlinear_arith)
                requires
                    d as int == pan@.d * self.zoom@.n,
                    pan@.d > 0,
                    self.zoom@.n > 0,
            ;
        }
        let q = floor_div_i128(n, d);
        if q < -COORD_LIMIT as i128 {
            -COORD_LIMIT
        } else if q > COORD_LIMIT as i128 {
            COORD_LIMIT
        } else {
            q as i64
        }
    }

    /// The screen point of world point `w`, floored and saturated into the
    /// screen range.
    pub fn world_to_screen(&self, w: Pt) -> (s: Pt)
        requires
            self.wf(),
            crate::geom::pt_ok(w),
        ensures
            s.x == clamp_screen(screen_floor(w.x as int, self.pan_x@, self.zoom@)),
            s.y == clamp_screen(screen_floor(w.y as int, self.pan_y@, self.zoom@)),
    {
        let x = self.world_to_screen_axis(w.x, self.pan_x);
        let y = self.world_to_screen_axis(w.y, self.pan_y);
        Pt { x, y }
    }

    /// One axis of [`Self::world_to_screen`].
    fn world_to_screen_axis(&self, w: i64, pan: Frac) -> (s: i64)
        requires
            self.wf(),
            frac_wf(pan),
            -COORD_LIMIT <= w <= COORD_LIMIT,
        ensures
            s == clamp_screen(screen_floor(w as int, pan@, self.zoom@)),
    {
        proof {
            assert(self.zoom.num as int <= ZOOM_VALUE_LIMIT as int * DEN_LIMIT as int);
            mul_bound2(
                w as int,
                self.zoom.num as int,
                COORD_LIMIT as int,
                ZOOM_VALUE_LIMIT as int * DEN_LIMIT as int,
            );
            mul_bound2(
                w as int * self.zoom.num as int,
                pan.den as int,
                COORD_LIMIT as int * ZOOM_VALUE_LIMIT as int * DEN_LIMIT as int,
                DEN_LIMIT as int,
            );
            mul_bound2(pan.num as int, self.zoom.den as int, NUM_LIMIT as int, DEN_LIMIT as int);
            mul_bound2(self.zoom.den as int, pan.den as int, DEN_LIMIT as int, DEN_LIMIT as int);
        }
        let n: i128 = w as i128 * self.zoom.num as i128 * pan.den as i128 + pan.num as i128
            * self.zoom.den as i128;
        let d: i128 = self.zoom.den as i128 * pan.den as i128;
        proof {
            assert(d > 0) by (nonlinear_arith)
                requires
                    d as int == self.zoom@.d * pan@.d,
                    pan@.d > 0,
                    self.zoom@.d > 0,
            ;
        }
        let q = floor_div_i128(n, d);
        if q < -SCREEN_LIMIT as i128 {
            -SCREEN_LIMIT
        } else if q > SCREEN_LIMIT as i128 {
            SCREEN_LIMIT
        } else {
            q as i64
        }
    }

    /// Convert a screen-space drag delta to a world-space delta at the
    /// current zoom: the floor of `d / zoom`, saturated into the
    /// coordinate range.
    pub fn screen_delta_to_world(&self, d: i64) -> (r: i64)
        requires
            self.wf(),
            -SCREEN_LIMIT <= d <= SCREEN_LIMIT,
        ensures
            r == clamp_coord((d * self.zoom@.d) / self.zoom@.n),
    {
        proof {
            mul_bound2(d as int, self.zoom.den as int, SCREEN_LIMIT as int, DEN_LIMIT as int);
        }
        let n: i128 = d as i128 * self.zoom.den as i128;
        let q = floor_div_i128(n, self.zoom.num as i128);
        if q < -COORD_LIMIT as i128 {
            -COORD_LIMIT
        } else if q > COORD_LIMIT as i128 {
            COORD_LIMIT
        } else {
            q as i64
        }
    }

    /// Apply a multiplicative zoom delta with the pointer at screen point
    /// `s`: the delta is clamped to `[1/10, 5]`, the zoom is multiplied by
    /// it, and the pan is recomputed so the world point under the pointer
    /// keeps its screen position. Fails and leaves the state unchanged
    /// exactly when a new pan or zoom no longer fits the fraction bounds
    /// in lowest terms.
    pub fn zoom_at(&mut self, delta: Frac, s: Pt) -> (r: bool)
        requires
            old(self).wf(),
            frac_wf(delta),
            0 < delta.num,
            delta.num <= DEN_LIMIT,
            -SCREEN_LIMIT <= s.x <= SCREEN_LIMIT,
            -SCREEN_LIMIT <= s.y <= SCREEN_LIMIT,
        ensures
            final(self).wf(),
            r == ({
                let cd = clamp_delta(delta@);
                let z = rat_mul(old(self).zoom@, cd);
                let px = zoom_step_pan(old(self).pan_x@, cd, s.x as int);
                let py = zoom_step_pan(old(self).pan_y@, cd, s.y as int);
                &&& z.n <= ZOOM_VALUE_LIMIT * z.d
                &&& z.d <= ZOOM_VALUE_LIMIT * z.n
                &&& reduced_fits(z.n, z.d)
                &&& reduced_fits(px.n, px.d)
                &&& reduced_fits(py.n, py.d)
            }),
            r ==> rat_eq(final(self).zoom@, rat_mul(old(self).zoom@, clamp_delta(delta@)))
                && rat_eq(
                final(self).pan_x@,
                zoom_step_pan(old(self).pan_x@, clamp_delta(delta@), s.x as int),
            ) && rat_eq(
                final(self).pan_y@,
                zoom_step_pan(old(self).pan_y@, clamp_delta(delta@), s.y as int),
            ) && ({
                let cd = clamp_delta(delta@);
                let z = rat_mul(old(self).zoom@, cd);
                let px = zoom_step_pan(old(self).pan_x@, cd, s.x as int);
                let py = zoom_step_pan(old(self).pan_y@, cd, s.y as int);
                &&& final(self).zoom@ == reduced_frac_of(z.n, z.d)
                &&& final(self).pan_x@ == reduced_frac_of(px.n, px.d)
                &&& final(self).pan_y@ == reduced_frac_of(py.n, py.d)
            }),
            !r ==> *final(self) == *old(self),
    {
        let cd: Frac = if (delta.num as i128) * 10 < delta.den as i128 {
            Frac { num: 1, den: 10 }
        } else if delta.num as i128 > (delta.den as i128) * 5 {
            Frac { num: 5, den: 1 }
        } else {
            delta
        };
        proof {
            assert(cd@ == clamp_delta(delta@));
            assert(0 < cd.den <= DEN_LIMIT);
            assert(0 < cd.num && cd.num as int <= 5 * cd.den as int);
            mul_bound2(
                self.zoom.num as int,
                cd.num as int,
                NUM_LIMIT as int,
                5 * DEN_LIMIT as int,
            );
            mul_bound2(self.zoom.den as int, cd.den as int, DEN_LIMIT as int, DEN_LIMIT as int);
        }
        let zn: i128 = self.zoom.num as i128 * cd.num as i128;
        let zd: i128 = self.zoom.den as i128 * cd.den as i128;
        proof {
            assert(zn > 0 && zd > 0) by (nonlinear_arith)
                requires
                    zn as int == self.zoom@.n * cd@.n,
                    zd as int == self.zoom@.d * cd@.d,
                    self.zoom@.n > 0,
                    self.zoom@.d > 0,
                    cd@.n > 0,
                    cd@.d > 0,
            ;
        }
        proof {
            assert(0 < zn <= NUM_LIMIT as i128 * (5 * DEN_LIMIT as i128));
            assert(0 < zd <= DEN_LIMIT as i128 * DEN_LIMIT as i128);
            mul_bound2(
                ZOOM_VALUE_LIMIT as int,
                zd as int,
                ZOOM_VALUE_LIMIT as int,
                DEN_LIMIT as int * DEN_LIMIT as int,
            );
            mul_bound2(
                ZOOM_VALUE_LIMIT as int,
                zn as int,
                ZOOM_VALUE_LIMIT as int,
                NUM_LIMIT as int * (5 * DEN_LIMIT as int),
            );
        }
        if zn > ZOOM_VALUE_LIMIT as i128 * zd || zd > ZOOM_VALUE_LIMIT as i128 * zn {
            return false;
        }
        let fz = match reduce_frac(zn, zd) {
            Some(f) => f,
            None => {
                return false;
            },
        };
        proof {
            let z = Rat { n: zn as int, d: zd as int };
            assert(fz.num as int <= ZOOM_VALUE_LIMIT as int * fz.den as int && fz.den as int
                <= ZOOM_VALUE_LIMIT as int * fz.num as int) by (nonlinear_arith)
                requires
                    rat_eq(fz@, z),
                    fz@.n == fz.num as int,
                    fz@.d == fz.den as int,
                    z.n <= ZOOM_VALUE_LIMIT as int * z.d,
                    z.d <= ZOOM_VALUE_LIMIT as int * z.n,
                    z.n > 0,
                    z.d > 0,
                    fz.num as int > 0,
                    fz.den as int > 0,
            ;
        }
        let fpx = match zoom_pan_axis(cd, s.x, self.pan_x) {
            Some(f) => f,
            None => {
                return false;
            },
        };
        let fpy = match zoom_pan_axis(cd, s.y, self.pan_y) {
            Some(f) => f,
            None => {
                return false;
            },
        };
        self.zoom = fz;
        self.pan_x = fpx;
        self.pan_y = fpy;
        true
    }
}

/// One axis of the pan recomputation of [`Viewport::zoom_at`].
fn zoom_pan_axis(cd: Frac, s: i64, pan: Frac) -> (r: Option<Frac>)
    requires
        frac_wf(pan),
        0 < cd.den <= DEN_LIMIT,
        0 < cd.num,
        cd.num as int <= 5 * DEN_LIMIT as int,
        -SCREEN_LIMIT <= s <= SCREEN_LIMIT,
    ensures
        (r is Some) == ({
            let p = zoom_step_pan(pan@, cd@, s as int);
            reduced_fits(p.n, p.d)
        }),
        r matches Some(f) ==> frac_wf(f) && rat_eq(f@, zoom_step_pan(pan@, cd@, s as int)) && f@
            == ({
            let p = zoom_step_pan(pan@, cd@, s as int);
            reduced_frac_of(p.n, p.d)
        }),
{
    proof {
        mul_bound2(
            s as int,
            cd.den as int - cd.num as int,
            SCREEN_LIMIT as int,
            6 * DEN_LIMIT as int,
        );
        mul_bound2(
            s as int * (cd.den as int - cd.num as int),
            pan.den as int,
            SCREEN_LIMIT as int * 6 * DEN_LIMIT as int,
            DEN_LIMIT as int,
        );
        mul_bound2(pan.num as int, cd.num as int, NUM_LIMIT as int, 5 * DEN_LIMIT as int);
        mul_bound2(pan.den as int, cd.den as int, DEN_LIMIT as int, DEN_LIMIT as int);
    }
    let n: i128 = s as i128 * (cd.den as i128 - cd.num as i128) * pan.den as i128 + pan.num as i128
        * cd.num as i128;
    let d: i128 = pan.den as i128 * cd.den as i128;
    proof {
        assert(d > 0) by (nonlinear_arith)
            requires
                d as int == pan@.d * cd@.d,
                pan@.d > 0,
                cd@.d > 0,
        ;
        assert(n as int == (s as int) * (cd@.d - cd@.n) * pan@.d + pan@.n * cd@.n);
    }
    reduce_frac(n, d)
}


/// The product of a sequence of rationals.
pub open spec fn rat_prod(ds: Seq<Rat>) -> Rat
    decreases ds.len(),
{
    if ds.len() == 0 {
        rat_one()
    } else {
        rat_mul(ds[0], rat_prod(ds.drop_first()))
    }
}

/// All rationals of the sequence are well-formed.
pub open spec fn rats_wf(ds: Seq<Rat>) -> bool {
    forall|i: int| 0 <= i < ds.len() ==> rat_wf(#[trigger] ds[i])
}

/// The pan after a sequence of zoom steps, all with the pointer at the
/// fixed screen coordinate `s`.
pub open spec fn pan_after(pan: Rat, s: int, ds: Seq<Rat>) -> Rat
    decreases ds.len(),
{
    if ds.len() == 0 {
        pan
    } else {
        pan_after(zoom_step_pan(pan, ds[0], s), s, ds.drop_first())
    }
}

/// The zoom after the same sequence of zoom steps.
pub open spec fn zoom_after(zoom: Rat, ds: Seq<Rat>) -> Rat
    decreases ds.len(),
{
    if ds.len() == 0 {
        zoom
    } else {
        zoom_after(rat_mul(zoom, ds[0]), ds.drop_first())
    }
}

/// Multiplying by one is the identity, exactly at the pair level.
proof fn lemma_rat_mul_one(x: Rat)
    ensures
        rat_mul(x, rat_one()) == x,
{
    let m = rat_mul(x, rat_one());
    assert(m.n == x.n * 1 && m.d == x.d * 1);
    assert(x.n * 1 == x.n && x.d * 1 == x.d) by (nonlinear_arith);
    assert(m == x);
}

/// The denominator of a difference with an integer stays positive.
proof fn lemma_sub_int_wf(a: Rat, s: int)
    requires
        rat_wf(a),
    ensures
        rat_wf(rat_sub(a, rat_int(s))),
        rat_sub(a, rat_int(s)).d == a.d,
{
    assert(rat_sub(a, rat_int(s)).d == a.d * 1);
    assert(a.d * 1 == a.d) by (nonlinear_arith);
}

/// A product of positives is positive.
proof fn lemma_pos_mul(a: int, b: int)
    requires
        a > 0,
        b > 0,
    ensures
        a * b > 0,
{
    assert(a * b > 0) by (nonlinear_arith)
        requires
            a > 0,
            b > 0,
    ;
}

/// `rat_eq` is transitive on well-formed rationals.
proof fn lemma_rat_eq_trans(a: Rat, b: Rat, c: Rat)
    requires
        rat_wf(a),
        rat_wf(b),
        rat_wf(c),
        rat_eq(a, b),
        rat_eq(b, c),
    ensures
        rat_eq(a, c),
{
    assert(a.n * c.d == c.n * a.d) by (nonlinear_arith)
        requires
            a.n * b.d == b.n * a.d,
            b.n * c.d == c.n * b.d,
            a.d > 0,
            b.d > 0,
            c.d > 0,
    ;
}

/// Multiplication respects `rat_eq` in its first argument.
proof fn lemma_rat_mul_cong(a: Rat, a2: Rat, b: Rat)
    requires
        rat_eq(a, a2),
    ensures
        rat_eq(rat_mul(a, b), rat_mul(a2, b)),
{
    let l = rat_mul(a, b);
    let r = rat_mul(a2, b);
    assert(l.n * r.d == r.n * l.d) by (nonlinear_arith)
        requires
            l.n == a.n * b.n,
            l.d == a.d * b.d,
            r.n == a2.n * b.n,
            r.d == a2.d * b.d,
            a.n * a2.d == a2.n * a.d,
    ;
}

/// Multiplication respects `rat_eq` in its second argument.
proof fn lemma_rat_mul_cong2(a: Rat, b: Rat, b2: Rat)
    requires
        rat_eq(b, b2),
    ensures
        rat_eq(rat_mul(a, b), rat_mul(a, b2)),
{
    let l = rat_mul(a, b);
    let r = rat_mul(a, b2);
    assert(l.n * r.d == r.n * l.d) by (nonlinear_arith)
        requires
            l.n == a.n * b.n,
            l.d == a.d * b.d,
            r.n == a.n * b2.n,
            r.d == a.d * b2.d,
            b.n * b2.d == b2.n * b.d,
    ;
}

/// One zoom step moves the pan toward the pointer by exactly the delta:
/// `pan' - s = (pan - s) * d`.
proof fn lemma_step_identity(pan: Rat, d: Rat, s: int)
    ensures
        rat_eq(
            rat_sub(zoom_step_pan(pan, d, s), rat_int(s)),
            rat_mul(rat_sub(pan, rat_int(s)), d),
        ),
{
    let l = rat_sub(zoom_step_pan(pan, d, s), rat_int(s));
    let r = rat_mul(rat_sub(pan, rat_int(s)), d);
    assert(l.n == (s * (d.d - d.n) * pan.d + pan.n * d.n) * 1 - s * (pan.d * d.d));
    assert(l.d == pan.d * d.d * 1);
    assert(r.n == (pan.n * 1 - s * pan.d) * d.n);
    assert(r.d == pan.d * 1 * d.d);
    assert(l.n * r.d == r.n * l.d) by (nonlinear_arith)
        requires
            l.n == (s * (d.d - d.n) * pan.d + pan.n * d.n) * 1 - s * (pan.d * d.d),
            l.d == pan.d * d.d * 1,
            r.n == (pan.n * 1 - s * pan.d) * d.n,
            r.d == pan.d * 1 * d.d,
    ;
}

/// After a sequence of zoom steps at a fixed pointer position, the pan's
/// offset from the pointer is the starting offset times the product of the
/// deltas.
proof fn lemma_pan_after_formula(pan: Rat, s: int, ds: Seq<Rat>)
    requires
        rat_wf(pan),
        rats_wf(ds),
    ensures
        rat_wf(pan_after(pan, s, ds)),
        rat_wf(rat_prod(ds)),
        rat_eq(
            rat_sub(pan_after(pan, s, ds), rat_int(s)),
            rat_mul(rat_sub(pan, rat_int(s)), rat_prod(ds)),
        ),
    decreases ds.len(),
{
    lemma_sub_int_wf(pan, s);
    if ds.len() == 0 {
        lemma_rat_mul_one(rat_sub(pan, rat_int(s)));
    } else {
        let d0 = ds[0];
        let rest = ds.drop_first();
        let pan1 = zoom_step_pan(pan, d0, s);
        assert(rat_wf(d0));
        lemma_pos_mul(pan.d, d0.d);
        assert(pan1.d == pan.d * d0.d);
        assert(rats_wf(rest)) by {
            assert(forall|i: int| 0 <= i < rest.len() ==> #[trigger] rest[i] == ds[i + 1]);
        }
        lemma_pan_after_formula(pan1, s, rest);
        lemma_step_identity(pan, d0, s);
        let x = rat_sub(pan, rat_int(s));
        let x1 = rat_sub(pan1, rat_int(s));
        let p_rest = rat_prod(rest);
        lemma_rat_mul_cong(x1, rat_mul(x, d0), p_rest);
        // associativity of the product, exactly at the pair level
        let a = rat_mul(rat_mul(x, d0), p_rest);
        let b = rat_mul(x, rat_mul(d0, p_rest));
        assert(a.n == b.n && a.d == b.d) by (nonlinear_arith)
            requires
                a.n == (x.n * d0.n) * p_rest.n,
                a.d == (x.d * d0.d) * p_rest.d,
                b.n == x.n * (d0.n * p_rest.n),
                b.d == x.d * (d0.d * p_rest.d),
        ;
        assert(a == b);
        // chain: pan_after - s ~ x1 * p_rest ~ (x * d0) * p_rest == x * prod(ds)
        let lhs = rat_sub(pan_after(pan, s, ds), rat_int(s));
        assert(pan_after(pan, s, ds) == pan_after(pan1, s, rest));
        lemma_sub_int_wf(pan1, s);
        lemma_sub_int_wf(pan_after(pan1, s, rest), s);
        lemma_pos_mul(x.d, d0.d);
        lemma_pos_mul(x1.d, p_rest.d);
        lemma_pos_mul(x.d * d0.d, p_rest.d);
        lemma_pos_mul(d0.d, p_rest.d);
        lemma_rat_eq_trans(lhs, rat_mul(x1, p_rest), a);
        assert(rat_prod(ds) == rat_mul(d0, p_rest));
        assert(rat_eq(lhs, rat_mul(x, rat_prod(ds))));
    }
}

/// The zoom after a sequence of steps is the starting zoom times the
/// product of the deltas.
proof fn lemma_zoom_after_formula(zoom: Rat, ds: Seq<Rat>)
    requires
        rat_wf(zoom),
        rats_wf(ds),
    ensures
        rat_wf(zoom_after(zoom, ds)),
        rat_wf(rat_prod(ds)),
        rat_eq(zoom_after(zoom, ds), rat_mul(zoom, rat_prod(ds))),
    decreases ds.len(),
{
    if ds.len() == 0 {
        lemma_rat_mul_one(zoom);
    } else {
        let d0 = ds[0];
        let rest = ds.drop_first();
        assert(rat_wf(d0));
        lemma_pos_mul(zoom.d, d0.d);
        assert(rat_mul(zoom, d0).d == zoom.d * d0.d);
        assert(rats_wf(rest)) by {
            assert(forall|i: int| 0 <= i < rest.len() ==> #[trigger] rest[i] == ds[i + 1]);
        }
        let z1 = rat_mul(zoom, d0);
        lemma_zoom_after_formula(z1, rest);
        let p_rest = rat_prod(rest);
        let a = rat_mul(rat_mul(zoom, d0), p_rest);
        let b = rat_mul(zoom, rat_mul(d0, p_rest));
        assert(a.n == b.n && a.d == b.d) by (nonlinear_arith)
            requires
                a.n == (zoom.n * d0.n) * p_rest.n,
                a.d == (zoom.d * d0.d) * p_rest.d,
                b.n == zoom.n * (d0.n * p_rest.n),
                b.d == zoom.d * (d0.d * p_rest.d),
        ;
        assert(a == b);
        lemma_pos_mul(d0.d, p_rest.d);
        lemma_pos_mul(z1.d, p_rest.d);
        assert(zoom_after(zoom, ds) == zoom_after(z1, rest));
        assert(rat_prod(ds) == rat_mul(d0, p_rest));
        assert(rat_eq(zoom_after(zoom, ds), rat_mul(zoom, rat_prod(ds))));
    }
}

/// Zoom invariance: for any sequence of pointer-anchored zoom steps,
/// performed with a fixed pointer screen position, whose deltas multiply
/// back to one, the resulting pan and zoom equal the starting pan and
/// zoom — exactly, since the viewport is exact rational state.
pub proof fn lemma_zoom_round_trip(pan: Rat, zoom: Rat, s: int, ds: Seq<Rat>)
    requires
        rat_wf(pan),
        rat_wf(zoom),
        rats_wf(ds),
        rat_eq(rat_prod(ds), rat_one()),
    ensures
        rat_eq(pan_after(pan, s, ds), pan),
        rat_eq(zoom_after(zoom, ds), zoom),
{
    lemma_pan_after_formula(pan, s, ds);
    lemma_zoom_after_formula(zoom, ds);
    let x = rat_sub(pan, rat_int(s));
    let p = rat_prod(ds);
    lemma_rat_mul_cong2(x, p, rat_one());
    lemma_rat_mul_one(x);
    let lhs = rat_sub(pan_after(pan, s, ds), rat_int(s));
    lemma_sub_int_wf(pan, s);
    lemma_sub_int_wf(pan_after(pan, s, ds), s);
    lemma_pos_mul(x.d, p.d);
    lemma_rat_eq_trans(lhs, rat_mul(x, p), x);
    // cancel the common "- s" to recover pan itself
    let pa = pan_after(pan, s, ds);
    assert(lhs.n == pa.n * 1 - s * pa.d && lhs.d == pa.d * 1);
    assert(x.n == pan.n * 1 - s * pan.d && x.d == pan.d * 1);
    assert(rat_eq(pa, pan)) by (nonlinear_arith)
        requires
            (pa.n * 1 - s * pa.d) * (pan.d * 1) == (pan.n * 1 - s * pan.d) * (pa.d * 1),
            pa.d > 0,
            pan.d > 0,
    ;
    // and the zoom: zoom * prod ~ zoom * 1 == zoom
    lemma_rat_mul_cong2(zoom, p, rat_one());
    lemma_rat_mul_one(zoom);
    lemma_pos_mul(zoom.d, p.d);
    lemma_rat_eq_trans(zoom_after(zoom, ds), rat_mul(zoom, p), zoom);
}

/// Zooming at a pointer keeps the world point under that pointer fixed:
/// the world coordinate under screen coordinate `s` is unchanged by a
/// zoom step at `s`.
pub proof fn lemma_zoom_keeps_pointer(pan: Rat, zoom: Rat, d: Rat, s: int)
    requires
        rat_wf(pan),
        rat_wf(zoom),
        zoom.n > 0,
        rat_wf(d),
        d.n > 0,
    ensures
        rat_eq(
            world_rat(s, zoom_step_pan(pan, d, s), rat_mul(zoom, d)),
            world_rat(s, pan, zoom),
        ),
{
    let pan1 = zoom_step_pan(pan, d, s);
    let zoom1 = rat_mul(zoom, d);
    let l = world_rat(s, pan1, zoom1);
    let r = world_rat(s, pan, zoom);
    let u = s * pan.d - pan.n;
    assert(s * pan1.d - pan1.n == d.n * u) by (nonlinear_arith)
        requires
            pan1.d == pan.d * d.d,
            pan1.n == s * (d.d - d.n) * pan.d + pan.n * d.n,
            u == s * pan.d - pan.n,
    ;
    assert(l.n * r.d == r.n * l.d) by (nonlinear_arith)
        requires
            l.n == (d.n * u) * zoom1.d,
            zoom1.d == zoom.d * d.d,
            zoom1.n == zoom.n * d.n,
            l.d == pan1.d * zoom1.n,
            pan1.d == pan.d * d.d,
            r.n == u * zoom.d,
            r.d == pan.d * zoom.n,
    ;
}

/// The world coordinate of a rational screen coordinate.
pub open spec fn world_rat_r(s: Rat, pan: Rat, zoom: Rat) -> Rat {
    Rat { n: (s.n * pan.d - pan.n * s.d) * zoom.d, d: s.d * pan.d * zoom.n }
}

/// The two transforms are exact inverses at the rational level:
/// `screenToWorld(worldToScreen(w)) = w` and the other way around.
pub proof fn lemma_transform_inverse(v: Rat, pan: Rat, zoom: Rat)
    requires
        rat_wf(v),
        rat_wf(pan),
        rat_wf(zoom),
        zoom.n > 0,
    ensures
        rat_eq(world_rat_r(screen_rat(v, pan, zoom), pan, zoom), v),
        rat_eq(screen_rat(world_rat_r(v, pan, zoom), pan, zoom), v),
{
    let sr = screen_rat(v, pan, zoom);
    let l1 = world_rat_r(sr, pan, zoom);
    assert(sr.n == (v.n * zoom.n) * pan.d + pan.n * (v.d * zoom.d));
    assert(sr.d == (v.d * zoom.d) * pan.d);
    assert(sr.n * pan.d - pan.n * sr.d == pan.d * pan.d * (v.n * zoom.n)) by (nonlinear_arith)
        requires
            sr.n == (v.n * zoom.n) * pan.d + pan.n * (v.d * zoom.d),
            sr.d == (v.d * zoom.d) * pan.d,
    ;
    assert(l1.n == pan.d * pan.d * (v.n * zoom.n) * zoom.d) by (nonlinear_arith)
        requires
            l1.n == (sr.n * pan.d - pan.n * sr.d) * zoom.d,
            sr.n * pan.d - pan.n * sr.d == pan.d * pan.d * (v.n * zoom.n),
    ;
    assert(l1.d == v.d * zoom.d * pan.d * pan.d * zoom.n) by (nonlinear_arith)
        requires
            l1.d == sr.d * pan.d * zoom.n,
            sr.d == (v.d * zoom.d) * pan.d,
    ;
    assert(l1.n * v.d == v.n * l1.d) by (nonlinear_arith)
        requires
            l1.n == pan.d * pan.d * (v.n * zoom.n) * zoom.d,
            l1.d == v.d * zoom.d * pan.d * pan.d * zoom.n,
    ;
    let wr = world_rat_r(v, pan, zoom);
    let l2 = screen_rat(wr, pan, zoom);
    assert(wr.n == (v.n * pan.d - pan.n * v.d) * zoom.d);
    assert(wr.d == v.d * pan.d * zoom.n);
    assert(l2.n == (wr.n * zoom.n) * pan.d + pan.n * (wr.d * zoom.d));
    assert(l2.d == (wr.d * zoom.d) * pan.d);
    let k = zoom.d * zoom.n * pan.d;
    assert(wr.n * zoom.n * pan.d == (v.n * pan.d - pan.n * v.d) * k) by (nonlinear_arith)
        requires
            wr.n == (v.n * pan.d - pan.n * v.d) * zoom.d,
            k == zoom.d * zoom.n * pan.d,
    ;
    assert(pan.n * (wr.d * zoom.d) == pan.n * v.d * k) by (nonlinear_arith)
        requires
            wr.d == v.d * pan.d * zoom.n,
            k == zoom.d * zoom.n * pan.d,
    ;
    assert(l2.n == v.n * pan.d * k) by (nonlinear_arith)
        requires
            l2.n == (wr.n * zoom.n) * pan.d + pan.n * (wr.d * zoom.d),
            (wr.n * zoom.n) * pan.d == wr.n * zoom.n * pan.d,
            wr.n * zoom.n * pan.d == (v.n * pan.d - pan.n * v.d) * k,
            pan.n * (wr.d * zoom.d) == pan.n * v.d * k,
    ;
    assert(l2.d == v.d * pan.d * k) by (nonlinear_arith)
        requires
            l2.d == (wr.d * zoom.d) * pan.d,
            wr.d == v.d * pan.d * zoom.n,
            k == zoom.d * zoom.n * pan.d,
    ;
    assert(l2.n * v.d == v.n * l2.d) by (nonlinear_arith)
        requires
            l2.n == v.n * pan.d * k,
            l2.d == v.d * pan.d * k,
    ;
}

} // verus!
