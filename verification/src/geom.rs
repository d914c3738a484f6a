//! Plane geometry on an integer grid.
//!
//! Every length is a whole number of grid steps, `UNIT` of them to one world
//! unit, and every time is a whole number of milliseconds. A direction is a
//! `Heading`: a vector whose length is at most `HEADING_ONE`, so that its two
//! components are the cosine and the sine of the facing angle, scaled. All
//! divisions round toward zero, and results that would leave the range of a
//! coordinate stop at its end.

use vstd::prelude::*;

verus! {

/// Grid steps in one world unit.
pub const UNIT: i32 = 1000;

/// Length of a full heading: the scale of its cosine and sine.
pub const HEADING_ONE: i32 = 1_000_000_000;

/// Milliseconds in one second.
pub const MILLIS_PER_SECOND: i32 = 1000;

/// The largest magnitude a coordinate or a speed takes.
pub const COORD_MAX: i32 = 0x7fff_ffff;

/// Cosine of a tenth of a degree, scaled by `HEADING_ONE`.
pub const COS_TENTH_DEGREE: i32 = 999_998_476;

/// Cosine of five degrees, scaled by `HEADING_ONE`.
pub const COS_5_DEGREES: i32 = 996_194_698;

/// Cosine of ten degrees, scaled by `HEADING_ONE`.
pub const COS_10_DEGREES: i32 = 984_807_753;

/// Cosine of thirty degrees, scaled by `HEADING_ONE`.
pub const COS_30_DEGREES: i32 = 866_025_403;

/// Quotient of `a` by a positive `b`, rounded toward zero.
pub open spec fn trunc_div(a: int, b: int) -> int {
    if a >= 0 {
        a / b
    } else {
        -((-a) / b)
    }
}

/// `v` brought into the interval from `lo` to `hi`.
pub open spec fn clamp(v: int, lo: int, hi: int) -> int {
    if v < lo {
        lo
    } else if v > hi {
        hi
    } else {
        v
    }
}

/// `v` brought into the range of a coordinate.
pub open spec fn saturate(v: int) -> int {
    clamp(v, -(COORD_MAX as int), COORD_MAX as int)
}

/// Magnitude of `v`.
pub open spec fn magnitude(v: int) -> int {
    if v >= 0 {
        v
    } else {
        -v
    }
}

/// Whether `r` is the square root of `n`, rounded down.
pub open spec fn is_floor_sqrt(n: int, r: int) -> bool {
    0 <= r && r * r <= n && n < (r + 1) * (r + 1)
}

/// The square root of `n`, rounded down.
pub open spec fn floor_sqrt(n: int) -> int {
    choose|r: int| is_floor_sqrt(n, r)
}

/// One component of a vector rescaled to the length `HEADING_ONE`: `c` is the
/// component and `norm2` the square of the vector's length. The result has
/// the sign of `c` and the magnitude of `c * HEADING_ONE / sqrt(norm2)`,
/// rounded toward zero.
pub open spec fn unit_component(c: int, norm2: int) -> int {
    let m = floor_sqrt(c * c * (HEADING_ONE as int * HEADING_ONE as int) / norm2);
    if c >= 0 {
        m
    } else {
        -m
    }
}

/// One component of a vector rescaled to the length `HEADING_ONE`: `r` has the
/// sign of `c` and the magnitude of `c * HEADING_ONE / sqrt(norm2)`, rounded
/// toward zero.
pub open spec fn is_unit_component(c: int, norm2: int, r: int) -> bool {
    &&& is_floor_sqrt(c * c * (HEADING_ONE as int * HEADING_ONE as int) / norm2, magnitude(r))
    &&& (c >= 0 ==> r >= 0)
    &&& (c <= 0 ==> r <= 0)
}

/// Brings a wide intermediate value into the range of a coordinate.
pub fn saturate_wide(v: i128) -> (r: i32)
    ensures
        r == saturate(v as int),
{
    if v < -(COORD_MAX as i128) {
        -COORD_MAX
    } else if v > COORD_MAX as i128 {
        COORD_MAX
    } else {
        v as i32
    }
}

/// Square root of `n`, rounded down.
pub fn isqrt(n: u128) -> (r: u64)
    requires
        n < 0x4000_0000_0000_0000_0000_0000_0000_0000,
    ensures
        is_floor_sqrt(n as int, r as int),
        r == floor_sqrt(n as int),
{
    let mut lo: u128 = 0;
    let mut hi: u128 = 0x8000_0000_0000_0000;
    while hi - lo > 1
        invariant
            lo < hi <= 0x8000_0000_0000_0000,
            lo * lo <= n < hi * hi,
        decreases hi - lo,
    {
        let mid: u128 = lo + (hi - lo) / 2;
        assert(mid * mid < 0x4000_0000_0000_0000_0000_0000_0000_0000) by (nonlinear_arith)
            requires
                0 <= mid < 0x8000_0000_0000_0000,
        ;
        if mid * mid <= n {
            lo = mid;
        } else {
            hi = mid;
        }
    }
    proof {
        lemma_floor_sqrt_unique(n as int, lo as int);
    }
    lo as u64
}

/// A point of the arena, in grid steps.
#[derive(Clone, Copy, Debug, PartialEq, Eq, Structural)]
pub struct Position {
    pub x: i32,
    pub y: i32,
}

/// A velocity, in grid steps per second.
#[derive(Clone, Copy, Debug, PartialEq, Eq, Structural)]
pub struct Velocity {
    pub dx: i32,
    pub dy: i32,
}

/// A direction: the scaled cosine and sine of a facing angle. Its length never
/// exceeds `HEADING_ONE`.
#[derive(Clone, Copy, Debug, PartialEq, Eq, Structural)]
pub struct Heading {
    dx: i32,
    dy: i32,
}

impl Heading {
    /// Scaled cosine of the heading.
    pub closed spec fn x(self) -> int {
        self.dx as int
    }

    /// Scaled sine of the heading.
    pub closed spec fn y(self) -> int {
        self.dy as int
    }

    /// A heading is at most a unit long.
    pub open spec fn wf(self) -> bool {
        self.x() * self.x() + self.y() * self.y() <= HEADING_ONE as int * HEADING_ONE as int
    }

    #[verifier::type_invariant]
    spec fn inv(self) -> bool {
        self.wf()
    }

    /// Dot product of two headings, as a mathematical integer.
    pub open spec fn dot_spec(self, other: Heading) -> int {
        self.x() * other.x() + self.y() * other.y()
    }

    /// The heading along the positive x axis: angle zero.
    pub closed spec fn spec_east() -> Heading {
        Heading { dx: HEADING_ONE, dy: 0 }
    }

    /// The heading of the vector `(dx, dy)`: east for the zero vector, else
    /// the vector rescaled to the length `HEADING_ONE`.
    pub closed spec fn spec_toward(dx: int, dy: int) -> Heading {
        if dx == 0 && dy == 0 {
            Heading::spec_east()
        } else {
            Heading {
                dx: unit_component(dx, dx * dx + dy * dy) as i32,
                dy: unit_component(dy, dx * dx + dy * dy) as i32,
            }
        }
    }

    /// The heading that is a quarter turn to the left of this one.
    pub closed spec fn spec_tangent(self) -> Heading {
        Heading { dx: (-self.dy) as i32, dy: self.dx }
    }

    /// The heading along the positive x axis: angle zero.
    pub fn east() -> (h: Heading)
        ensures
            h == Heading::spec_east(),
            h.x() == HEADING_ONE,
            h.y() == 0,
            h.wf(),
    {
        Heading { dx: HEADING_ONE, dy: 0 }
    }

    /// The heading with the given scaled cosine and sine, if it is at most a
    /// unit long.
    pub fn new(dx: i32, dy: i32) -> (r: Option<Heading>)
        ensures
            r is Some <==> dx * dx + dy * dy <= HEADING_ONE as int * HEADING_ONE as int,
            r matches Some(h) ==> h.x() == dx && h.y() == dy && h.wf(),
    {
        let a: i64 = dx as i64;
        let b: i64 = dy as i64;
        assert(0 <= a * a <= 0x4000_0000_0000_0000 && 0 <= b * b <= 0x4000_0000_0000_0000)
            by (nonlinear_arith)
            requires
                -0x8000_0000 <= a <= 0x7fff_ffff,
                -0x8000_0000 <= b <= 0x7fff_ffff,
        ;
        let norm2: u64 = (a * a) as u64 + (b * b) as u64;
        if norm2 <= 1_000_000_000_000_000_000 {
            Some(Heading { dx, dy })
        } else {
            None
        }
    }

    /// Scaled cosine of the heading.
    pub fn dx(&self) -> (r: i32)
        ensures
            r == self.x(),
            -HEADING_ONE <= r <= HEADING_ONE,
            self.wf(),
    {
        proof {
            use_type_invariant(self);
            lemma_components_bounded(self.x(), self.y());
        }
        self.dx
    }

    /// Scaled sine of the heading.
    pub fn dy(&self) -> (r: i32)
        ensures
            r == self.y(),
            -HEADING_ONE <= r <= HEADING_ONE,
            self.wf(),
    {
        proof {
            use_type_invariant(self);
            lemma_components_bounded(self.x(), self.y());
        }
        self.dy
    }

    /// Dot product of two headings: the scaled cosine of the angle between
    /// them, times `HEADING_ONE`.
    pub fn dot(&self, other: &Heading) -> (r: i64)
        ensures
            r == self.dot_spec(*other),
    {
        let a: i64 = self.dx() as i64;
        let b: i64 = self.dy() as i64;
        let c: i64 = other.dx() as i64;
        let d: i64 = other.dy() as i64;
        assert(-1_000_000_000_000_000_000 <= a * c <= 1_000_000_000_000_000_000
            && -1_000_000_000_000_000_000 <= b * d <= 1_000_000_000_000_000_000)
            by (nonlinear_arith)
            requires
                -1_000_000_000 <= a <= 1_000_000_000,
                -1_000_000_000 <= b <= 1_000_000_000,
                -1_000_000_000 <= c <= 1_000_000_000,
                -1_000_000_000 <= d <= 1_000_000_000,
        ;
        a * c + b * d
    }

    /// Whether `other` lies within the angle whose scaled cosine is
    /// `min_cos`: whether the dot product reaches `min_cos * HEADING_ONE`.
    pub fn within(&self, other: &Heading, min_cos: i32) -> (r: bool)
        ensures
            r == (self.dot_spec(*other) >= min_cos * HEADING_ONE),
    {
        let bound: i64 = (min_cos as i64) * (HEADING_ONE as i64);
        self.dot(other) >= bound
    }

    /// The heading a quarter turn to the left of this one.
    pub fn tangent(&self) -> (h: Heading)
        ensures
            h == self.spec_tangent(),
            h.x() == -self.y(),
            h.y() == self.x(),
            h.wf(),
    {
        let a: i32 = self.dx();
        let b: i32 = self.dy();
        proof {
            assert((-b) * (-b) + a * a == a * a + b * b) by (nonlinear_arith);
        }
        Heading { dx: -b, dy: a }
    }

    /// The heading of the vector `(dx, dy)`: the vector rescaled to the length
    /// `HEADING_ONE`, each component rounded toward zero. The zero vector
    /// faces east, as angle zero does.
    pub fn toward(dx: i64, dy: i64) -> (h: Heading)
        requires
            -0x1_0000_0000 <= dx <= 0x1_0000_0000,
            -0x1_0000_0000 <= dy <= 0x1_0000_0000,
        ensures
            h == Heading::spec_toward(dx as int, dy as int),
            h.wf(),
            dx == 0 && dy == 0 ==> h.x() == HEADING_ONE && h.y() == 0,
            dx != 0 || dy != 0 ==> is_unit_component(dx as int, dx * dx + dy * dy, h.x())
                && is_unit_component(dy as int, dx * dx + dy * dy, h.y()),
    {
        if dx == 0 && dy == 0 {
            return Heading::east();
        }
        let ax: u128 = if dx >= 0 { dx as u128 } else { (-dx) as u128 };
        let ay: u128 = if dy >= 0 { dy as u128 } else { (-dy) as u128 };
        let one2: u128 = 1_000_000_000_000_000_000;
        assert(ax * ax <= 0x1_0000_0000_0000_0000 && ay * ay <= 0x1_0000_0000_0000_0000)
            by (nonlinear_arith)
            requires
                0 <= ax <= 0x1_0000_0000,
                0 <= ay <= 0x1_0000_0000,
        ;
        assert(ax * ax + ay * ay > 0) by (nonlinear_arith)
            requires
                ax > 0 || ay > 0,
                ax >= 0,
                ay >= 0,
        ;
        let norm2: u128 = ax * ax + ay * ay;
        assert(ax * ax * one2 <= 0x1_0000_0000_0000_0000 * 1_000_000_000_000_000_000 && ay * ay
            * one2 <= 0x1_0000_0000_0000_0000 * 1_000_000_000_000_000_000) by (nonlinear_arith)
            requires
                0 <= ax * ax <= 0x1_0000_0000_0000_0000,
                0 <= ay * ay <= 0x1_0000_0000_0000_0000,
                one2 == 1_000_000_000_000_000_000,
        ;
        let qx: u128 = ax * ax * one2 / norm2;
        let qy: u128 = ay * ay * one2 / norm2;
        assert(qx <= ax * ax * one2 && qy <= ay * ay * one2) by (nonlinear_arith)
            requires
                qx == ax * ax * one2 / (norm2 as int),
                qy == ay * ay * one2 / (norm2 as int),
                norm2 > 0,
                ax * ax * one2 >= 0,
                ay * ay * one2 >= 0,
        ;
        let rx: u64 = isqrt(qx);
        let ry: u64 = isqrt(qy);
        proof {
            lemma_unit_parts(ax as int, ay as int, one2 as int, rx as int, ry as int);
        }
        let hx: i32 = if dx >= 0 { rx as i32 } else { -(rx as i32) };
        let hy: i32 = if dy >= 0 { ry as i32 } else { -(ry as i32) };
        proof {
            assert(hx * hx == rx * rx) by (nonlinear_arith)
                requires
                    hx == rx || hx == -rx,
            ;
            assert(hy * hy == ry * ry) by (nonlinear_arith)
                requires
                    hy == ry || hy == -ry,
            ;
            assert(dx * dx == ax * ax) by (nonlinear_arith)
                requires
                    dx == ax || dx == -ax,
            ;
            assert(dy * dy == ay * ay) by (nonlinear_arith)
                requires
                    dy == ay || dy == -ay,
            ;
            assert(HEADING_ONE as int * HEADING_ONE as int == one2);
            assert(dx * dx * (HEADING_ONE as int * HEADING_ONE as int) == ax * ax * one2)
                by (nonlinear_arith)
                requires
                    dx * dx == ax * ax,
                    HEADING_ONE as int * HEADING_ONE as int == one2,
            ;
            assert(dy * dy * (HEADING_ONE as int * HEADING_ONE as int) == ay * ay * one2)
                by (nonlinear_arith)
                requires
                    dy * dy == ay * ay,
                    HEADING_ONE as int * HEADING_ONE as int == one2,
            ;
            assert(magnitude(hx as int) == rx);
            assert(magnitude(hy as int) == ry);
            let n: int = dx * dx + dy * dy;
            let k: int = HEADING_ONE as int * HEADING_ONE as int;
            assert(n == norm2);
            assert(dx * dx * k / n == qx);
            assert(dy * dy * k / n == qy);
            if dx == 0 {
                assert(ax * ax * one2 == 0) by (nonlinear_arith)
                    requires
                        ax == 0,
                ;
                assert(rx == 0) by (nonlinear_arith)
                    requires
                        0 <= rx,
                        rx * rx <= 0,
                ;
            }
            if dy == 0 {
                assert(ay * ay * one2 == 0) by (nonlinear_arith)
                    requires
                        ay == 0,
                ;
                assert(ry == 0) by (nonlinear_arith)
                    requires
                        0 <= ry,
                        ry * ry <= 0,
                ;
            }
            assert(is_unit_component(dx as int, n, hx as int));
            assert(is_unit_component(dy as int, n, hy as int));
            lemma_floor_sqrt_unique(qx as int, rx as int);
            lemma_floor_sqrt_unique(qy as int, ry as int);
            assert(unit_component(dx as int, n) == hx);
            assert(unit_component(dy as int, n) == hy);
        }
        Heading { dx: hx, dy: hy }
    }
}

/// One component of the velocity that covers `delta` grid steps in `dt`
/// milliseconds. Nothing is known of the speed where no time has passed: it
/// is taken as zero.
pub open spec fn velocity_component(delta: int, dt: int) -> int {
    if dt == 0 {
        0
    } else {
        saturate(trunc_div(delta * MILLIS_PER_SECOND as int, dt))
    }
}

/// One coordinate of a point that started at `c` and moved at `v` grid steps
/// per second for `dt` milliseconds.
pub open spec fn projected_component(c: int, v: int, dt: int) -> int {
    saturate(c + trunc_div(v * dt, MILLIS_PER_SECOND as int))
}

/// One component of a heading stretched to the length `speed`.
pub open spec fn scaled_component(h: int, speed: int) -> int {
    trunc_div(h * speed, HEADING_ONE as int)
}

impl Position {
    /// Square of the distance between two points.
    pub open spec fn dist2(self, other: Position) -> int {
        (other.x - self.x) * (other.x - self.x) + (other.y - self.y) * (other.y - self.y)
    }

    /// The point reached from this one at the velocity `vel` after `dt`
    /// milliseconds.
    pub open spec fn projected(self, vel: Velocity, dt: int) -> Position {
        Position {
            x: projected_component(self.x as int, vel.dx as int, dt) as i32,
            y: projected_component(self.y as int, vel.dy as int, dt) as i32,
        }
    }

    /// The velocity that leads from this point to `other` in `dt`
    /// milliseconds.
    pub open spec fn velocity_toward(self, other: Position, dt: int) -> Velocity {
        Velocity {
            dx: velocity_component(other.x - self.x, dt) as i32,
            dy: velocity_component(other.y - self.y, dt) as i32,
        }
    }

    /// The heading that points from this point to `other`; east where the two
    /// coincide.
    pub open spec fn bearing(self, other: Position) -> Heading {
        Heading::spec_toward(other.x - self.x, other.y - self.y)
    }

    /// Square of the distance from this point to `other`.
    pub fn distance_squared(&self, other: &Position) -> (r: u128)
        ensures
            r == self.dist2(*other),
    {
        let ex: i128 = other.x as i128 - self.x as i128;
        let ey: i128 = other.y as i128 - self.y as i128;
        assert(0 <= ex * ex <= 0xffff_fffe_0000_0001 && 0 <= ey * ey <= 0xffff_fffe_0000_0001)
            by (nonlinear_arith)
            requires
                -0xffff_ffff <= ex <= 0xffff_ffff,
                -0xffff_ffff <= ey <= 0xffff_ffff,
        ;
        (ex * ex + ey * ey) as u128
    }

    /// Distance from this point to `other`, rounded down.
    pub fn distance(&self, other: &Position) -> (r: u64)
        ensures
            r == floor_sqrt(self.dist2(*other)),
            is_floor_sqrt(self.dist2(*other), r as int),
    {
        let ex: i128 = other.x as i128 - self.x as i128;
        let ey: i128 = other.y as i128 - self.y as i128;
        assert(0 <= ex * ex <= 0xffff_fffe_0000_0001 && 0 <= ey * ey <= 0xffff_fffe_0000_0001)
            by (nonlinear_arith)
            requires
                -0xffff_ffff <= ex <= 0xffff_ffff,
                -0xffff_ffff <= ey <= 0xffff_ffff,
        ;
        isqrt((ex * ex + ey * ey) as u128)
    }

    /// The heading that points from this point to `other`; east where the two
    /// coincide.
    pub fn angle_to(&self, other: &Position) -> (h: Heading)
        ensures
            h == self.bearing(*other),
            h.wf(),
            *self == *other ==> h.x() == HEADING_ONE && h.y() == 0,
            *self != *other ==> is_unit_component(
                other.x - self.x,
                self.dist2(*other),
                h.x(),
            ) && is_unit_component(other.y - self.y, self.dist2(*other), h.y()),
    {
        Heading::toward(other.x as i64 - self.x as i64, other.y as i64 - self.y as i64)
    }

    /// The velocity at which one travels from this point to `other` in `dt`
    /// milliseconds.
    pub fn velocity_to(&self, other: &Position, dt: u64) -> (v: Velocity)
        ensures
            v == self.velocity_toward(*other, dt as int),
    {
        if dt == 0 {
            return Velocity { dx: 0, dy: 0 };
        }
        let ex: i128 = (other.x as i128 - self.x as i128) * 1000;
        let ey: i128 = (other.y as i128 - self.y as i128) * 1000;
        Velocity { dx: saturate_wide(ex / (dt as i128)), dy: saturate_wide(ey / (dt as i128)) }
    }

    /// The point reached from this one at the velocity `vel` after `dt`
    /// milliseconds.
    pub fn project(&self, vel: &Velocity, dt: u64) -> (p: Position)
        ensures
            p == self.projected(*vel, dt as int),
    {
        let vx: i128 = vel.dx as i128;
        let vy: i128 = vel.dy as i128;
        let t: i128 = dt as i128;
        assert(-0x8000_0000_0000_0000_0000_0000 <= vx * t <= 0x8000_0000_0000_0000_0000_0000
            && -0x8000_0000_0000_0000_0000_0000 <= vy * t <= 0x8000_0000_0000_0000_0000_0000)
            by (nonlinear_arith)
            requires
                -0x8000_0000 <= vx <= 0x8000_0000,
                -0x8000_0000 <= vy <= 0x8000_0000,
                0 <= t <= 0x1_0000_0000_0000_0000,
        ;
        let mx: i128 = vx * t / 1000;
        let my: i128 = vy * t / 1000;
        Position { x: saturate_wide(self.x as i128 + mx), y: saturate_wide(self.y as i128 + my) }
    }
}

impl Velocity {
    /// Square of the speed.
    pub open spec fn norm2(self) -> int {
        self.dx * self.dx + self.dy * self.dy
    }

    /// The velocity with the magnitudes of both components.
    pub open spec fn magnitudes(self) -> Velocity {
        Velocity {
            dx: saturate(magnitude(self.dx as int)) as i32,
            dy: saturate(magnitude(self.dy as int)) as i32,
        }
    }

    /// The velocity of a body that faces `heading` and covers `speed` grid
    /// steps per second.
    pub open spec fn along(heading: Heading, speed: int) -> Velocity {
        Velocity {
            dx: scaled_component(heading.x(), speed) as i32,
            dy: scaled_component(heading.y(), speed) as i32,
        }
    }

    /// The heading a quarter turn to the left of the direction of travel;
    /// east for a body at rest.
    pub open spec fn sidestep(self) -> Heading {
        Heading::spec_toward(-self.dy, self.dx as int)
    }

    /// Standing still.
    pub fn zero() -> (v: Velocity)
        ensures
            v == (Velocity { dx: 0, dy: 0 }),
    {
        Velocity { dx: 0, dy: 0 }
    }

    /// The velocity of a body that faces `heading` and covers `speed` grid
    /// steps per second.
    pub fn with_angle_speed(heading: &Heading, speed: i32) -> (v: Velocity)
        ensures
            v == Velocity::along(*heading, speed as int),
            speed >= 0 ==> -speed <= v.dx <= speed && -speed <= v.dy <= speed,
    {
        let hx: i64 = heading.dx() as i64;
        let hy: i64 = heading.dy() as i64;
        let s: i64 = speed as i64;
        assert(-0x8000_0000 * 1_000_000_000 <= hx * s <= 0x8000_0000 * 1_000_000_000
            && -0x8000_0000 * 1_000_000_000 <= hy * s <= 0x8000_0000 * 1_000_000_000)
            by (nonlinear_arith)
            requires
                -1_000_000_000 <= hx <= 1_000_000_000,
                -1_000_000_000 <= hy <= 1_000_000_000,
                -0x8000_0000 <= s <= 0x8000_0000,
        ;
        let vx: i64 = hx * s / (HEADING_ONE as i64);
        let vy: i64 = hy * s / (HEADING_ONE as i64);
        proof {
            lemma_scaled_bounded(hx as int, s as int);
            lemma_scaled_bounded(hy as int, s as int);
        }
        Velocity { dx: vx as i32, dy: vy as i32 }
    }

    /// The velocity with the magnitudes of both components.
    pub fn abs(&self) -> (v: Velocity)
        ensures
            v == self.magnitudes(),
            v.dx >= 0,
            v.dy >= 0,
    {
        let ax: i128 = if self.dx >= 0 { self.dx as i128 } else { -(self.dx as i128) };
        let ay: i128 = if self.dy >= 0 { self.dy as i128 } else { -(self.dy as i128) };
        Velocity { dx: saturate_wide(ax), dy: saturate_wide(ay) }
    }

    /// Square of the speed.
    pub fn length_squared(&self) -> (r: u64)
        ensures
            r == self.norm2(),
    {
        let ax: u64 = if self.dx >= 0 { self.dx as u64 } else { (-(self.dx as i64)) as u64 };
        let ay: u64 = if self.dy >= 0 { self.dy as u64 } else { (-(self.dy as i64)) as u64 };
        assert(ax * ax <= 0x4000_0000_0000_0000 && ay * ay <= 0x4000_0000_0000_0000)
            by (nonlinear_arith)
            requires
                0 <= ax <= 0x8000_0000,
                0 <= ay <= 0x8000_0000,
        ;
        assert(ax * ax == self.dx * self.dx && ay * ay == self.dy * self.dy) by (nonlinear_arith)
            requires
                ax == self.dx || ax == -self.dx,
                ay == self.dy || ay == -self.dy,
        ;
        ax * ax + ay * ay
    }

    /// The heading a quarter turn to the left of the direction of travel:
    /// the way to step aside from something that moves at this velocity.
    pub fn tangent(&self) -> (h: Heading)
        ensures
            h == self.sidestep(),
            h.wf(),
            self.dx == 0 && self.dy == 0 ==> h.x() == HEADING_ONE && h.y() == 0,
            self.dx != 0 || self.dy != 0 ==> is_unit_component(-self.dy, self.norm2(), h.x())
                && is_unit_component(self.dx as int, self.norm2(), h.y()),
    {
        proof {
            assert((-self.dy) * (-self.dy) + self.dx * self.dx == self.norm2())
                by (nonlinear_arith);
        }
        Heading::toward(-(self.dy as i64), self.dx as i64)
    }
}

/// A heading stretched to a speed is no faster than that speed.
pub proof fn lemma_scaled_bounded(h: int, speed: int)
    requires
        -HEADING_ONE <= h <= HEADING_ONE,
    ensures
        speed >= 0 ==> -speed <= scaled_component(h, speed) <= speed,
        speed <= 0 ==> speed <= scaled_component(h, speed) <= -speed,
{
    let one: int = HEADING_ONE as int;
    let p: int = h * speed;
    if speed >= 0 {
        assert(-(speed * one) <= p <= speed * one) by (nonlinear_arith)
            requires
                p == h * speed,
                -one <= h <= one,
                speed >= 0,
        ;
    } else {
        assert(speed * one <= p <= -(speed * one)) by (nonlinear_arith)
            requires
                p == h * speed,
                -one <= h <= one,
                speed <= 0,
        ;
    }
    let s: int = magnitude(speed);
    assert(-(s * one) <= p <= s * one);
    lemma_trunc_div_bounded(p, s, one);
}

/// A quotient rounded toward zero keeps the bound of its dividend.
pub proof fn lemma_trunc_div_bounded(p: int, s: int, d: int)
    requires
        d > 0,
        s >= 0,
        -(s * d) <= p <= s * d,
    ensures
        -s <= trunc_div(p, d) <= s,
{
    if p >= 0 {
        assert(p / d <= s) by (nonlinear_arith)
            requires
                0 <= p <= s * d,
                d > 0,
        ;
        assert(p / d >= 0) by (nonlinear_arith)
            requires
                0 <= p,
                d > 0,
        ;
    } else {
        assert((-p) / d <= s) by (nonlinear_arith)
            requires
                0 <= -p <= s * d,
                d > 0,
        ;
        assert((-p) / d >= 0) by (nonlinear_arith)
            requires
                0 <= -p,
                d > 0,
        ;
    }
}

/// Only one number is the square root of `n`, rounded down.
pub proof fn lemma_floor_sqrt_unique(n: int, r: int)
    requires
        is_floor_sqrt(n, r),
    ensures
        floor_sqrt(n) == r,
{
    let c = floor_sqrt(n);
    assert(is_floor_sqrt(n, c));
    if c < r {
        assert((c + 1) * (c + 1) <= r * r) by (nonlinear_arith)
            requires
                0 <= c,
                c + 1 <= r,
        ;
    }
    if r < c {
        assert((r + 1) * (r + 1) <= c * c) by (nonlinear_arith)
            requires
                0 <= r,
                r + 1 <= c,
        ;
    }
}

/// The heading east is a unit long and has no sine.
pub proof fn lemma_east()
    ensures
        Heading::spec_east().x() == HEADING_ONE,
        Heading::spec_east().y() == 0,
        Heading::spec_east().wf(),
{
}

/// A quarter turn to the left takes the cosine to the sine and the sine to
/// the cosine with its sign turned over, and keeps the length.
pub proof fn lemma_tangent(h: Heading)
    requires
        h.wf(),
    ensures
        h.spec_tangent().x() == -h.y(),
        h.spec_tangent().y() == h.x(),
        h.spec_tangent().wf(),
{
    lemma_components_bounded(h.x(), h.y());
    assert((-h.y()) * (-h.y()) + h.x() * h.x() == h.x() * h.x() + h.y() * h.y())
        by (nonlinear_arith);
}

/// Four quarter turns bring a heading back to where it was.
pub proof fn lemma_four_quarter_turns(h: Heading)
    requires
        h.wf(),
    ensures
        h.spec_tangent().spec_tangent().spec_tangent().spec_tangent() == h,
{
    let a = h.spec_tangent();
    lemma_tangent(h);
    let b = a.spec_tangent();
    lemma_tangent(a);
    let c = b.spec_tangent();
    lemma_tangent(b);
    let d = c.spec_tangent();
    lemma_tangent(c);
    lemma_heading_eq(d, h);
}

/// Two headings with the same cosine and the same sine are one heading.
pub proof fn lemma_heading_eq(a: Heading, b: Heading)
    requires
        a.x() == b.x(),
        a.y() == b.y(),
    ensures
        a == b,
{
}

/// Each component of a vector no longer than `HEADING_ONE` lies between
/// `-HEADING_ONE` and `HEADING_ONE`.
pub proof fn lemma_components_bounded(x: int, y: int)
    requires
        x * x + y * y <= HEADING_ONE as int * HEADING_ONE as int,
    ensures
        -HEADING_ONE <= x <= HEADING_ONE,
        -HEADING_ONE <= y <= HEADING_ONE,
{
    let one: int = HEADING_ONE as int;
    assert(-one <= x <= one && -one <= y <= one) by (nonlinear_arith)
        requires
            x * x + y * y <= one * one,
            one == 1_000_000_000,
    ;
}

/// The rounded parts of a rescaled vector are together at most a unit long.
proof fn lemma_unit_parts(ax: int, ay: int, one2: int, rx: int, ry: int)
    requires
        ax >= 0,
        ay >= 0,
        ax > 0 || ay > 0,
        one2 == HEADING_ONE as int * HEADING_ONE as int,
        is_floor_sqrt(ax * ax * one2 / (ax * ax + ay * ay), rx),
        is_floor_sqrt(ay * ay * one2 / (ax * ax + ay * ay), ry),
    ensures
        rx * rx + ry * ry <= one2,
        0 <= rx <= HEADING_ONE,
        0 <= ry <= HEADING_ONE,
{
    let n = ax * ax + ay * ay;
    let a = ax * ax * one2;
    let b = ay * ay * one2;
    assert(n > 0) by (nonlinear_arith)
        requires
            n == ax * ax + ay * ay,
            ax > 0 || ay > 0,
            ax >= 0,
            ay >= 0,
    ;
    assert(a >= 0 && b >= 0 && a + b == n * one2) by (nonlinear_arith)
        requires
            a == ax * ax * one2,
            b == ay * ay * one2,
            n == ax * ax + ay * ay,
            one2 >= 0,
    ;
    assert((a / n) * n <= a && (b / n) * n <= b) by (nonlinear_arith)
        requires
            n > 0,
            a >= 0,
            b >= 0,
    ;
    assert(rx * rx + ry * ry <= one2) by (nonlinear_arith)
        requires
            rx * rx <= a / n,
            ry * ry <= b / n,
            (a / n) * n <= a,
            (b / n) * n <= b,
            a + b == n * one2,
            n > 0,
    ;
    lemma_components_bounded(rx, ry);
}

} // verus!
