//! Points, vectors and shapes of the game world, which wraps around at its edges.

use vstd::prelude::*;
use crate::units::{add_sat, saturate, div_trunc, mul_fixed, mul_fixed_spec, saturate_spec, sub_sat, trunc_div, Coord, SCALE};

verus! {

/// A displacement or velocity.
#[derive(Clone, Copy, Debug, PartialEq, Eq, Structural)]
pub struct Vec2 {
    pub x: Coord,
    pub y: Coord,
}

/// A point of the world.
#[derive(Clone, Copy, Debug, PartialEq, Eq, Structural)]
pub struct Position {
    pub x: Coord,
    pub y: Coord,
}

/// A rotation in thousandths of a degree.
#[derive(Clone, Copy, Debug, PartialEq, Eq, Structural)]
pub struct Angle {
    pub millidegrees: i64,
}

#[derive(Clone, Copy, Debug, PartialEq, Eq, Structural)]
pub enum Shape {
    Circle { radius: Coord },
    Rectangle { width: Coord, height: Coord },
}

/// Where a thing is, how it is turned, and its outline.
#[derive(Clone, Copy, Debug, PartialEq, Eq, Structural)]
pub struct Collider {
    pub position: Position,
    pub rotation: Angle,
    pub shape: Shape,
}

impl Vec2 {
    pub fn zero() -> (v: Vec2)
        ensures
            v.x == 0 && v.y == 0,
    {
        Vec2 { x: 0, y: 0 }
    }

    /// The unit vector pointing up.
    pub fn unit_y() -> (v: Vec2)
        ensures
            v.x == 0 && v.y == SCALE,
    {
        Vec2 { x: 0, y: SCALE }
    }
}

impl Position {
    pub open spec fn zero_spec() -> Position {
        Position { x: 0, y: 0 }
    }

    pub fn zero() -> (p: Position)
        ensures
            p == Position::zero_spec(),
    {
        Position { x: 0, y: 0 }
    }
}

impl Angle {
    pub fn zero() -> (a: Angle)
        ensures
            a.millidegrees == 0,
    {
        Angle { millidegrees: 0 }
    }
}

impl Collider {
    pub open spec fn new_spec(position: Position, shape: Shape) -> Collider {
        Collider { position, rotation: Angle { millidegrees: 0 }, shape }
    }

    /// An unrotated collider of `shape` at `position`.
    pub fn new(position: Position, shape: Shape) -> (c: Collider)
        ensures
            c == Collider::new_spec(position, shape),
    {
        Collider { position, rotation: Angle::zero(), shape }
    }
}

} // verus!

verus! {

/// The remainder of `a` modulo a positive `m`, in the range from zero to below `m`.
pub fn rem_euclid(a: i128, m: i128) -> (r: i128)
    requires
        m > 0,
        a > i128::MIN,
    ensures
        r == a % m,
        0 <= r < m,
{
    if a >= 0 {
        a % m
    } else {
        let n: i128 = -a;
        let q: i128 = n % m;
        proof {
            lemma_neg_rem(a as int, m as int, q as int);
        }
        if q == 0 {
            0
        } else {
            m - q
        }
    }
}

proof fn lemma_neg_rem(a: int, m: int, q: int)
    requires
        m > 0,
        a < 0,
        q == (-a) % m,
    ensures
        q == 0 ==> a % m == 0,
        q != 0 ==> a % m == m - q,
{
    let n = -a;
    let k = n / m;
    assert(n == k * m + q) by (nonlinear_arith)
        requires
            n >= 0,
            m > 0,
            k == n / m,
            q == n % m,
    ;
    assert(0 <= q < m);
    if q == 0 {
        assert(a == (-k) * m) by (nonlinear_arith)
            requires
                a == -n,
                n == k * m + q,
                q == 0,
        ;
        vstd::arithmetic::div_mod::lemma_mod_multiples_basic(-k, m);
    } else {
        assert(a == (-k - 1) * m + (m - q)) by (nonlinear_arith)
            requires
                a == -n,
                n == k * m + q,
        ;
        vstd::arithmetic::div_mod::lemma_fundamental_div_mod_converse(a, m, -k - 1, m - q);
    }
}

/// The shortest signed step from a coordinate to one `d` further along a circle of length `w`.
pub open spec fn wrap_delta(d: int, w: int) -> int {
    let r = d % w;
    if 2 * r > w {
        r - w
    } else {
        r
    }
}

/// The largest integer whose square does not exceed `n`.
pub open spec fn is_isqrt(r: int, n: int) -> bool {
    0 <= r && r * r <= n < (r + 1) * (r + 1)
}

/// The integer square root, rounded down.
pub fn isqrt(n: u128) -> (r: u64)
    ensures
        is_isqrt(r as int, n as int),
{
    let mut lo: u128 = 0;
    let mut hi: u128 = 0x1_0000_0000_0000_0000;
    proof {
        assert(hi * hi > u128::MAX) by (nonlinear_arith)
            requires
                hi == 0x1_0000_0000_0000_0000,
        ;
    }
    while hi - lo > 1
        invariant
            lo < hi <= 0x1_0000_0000_0000_0000,
            lo * lo <= n,
            n < hi * hi,
        decreases hi - lo,
    {
        let mid: u128 = lo + (hi - lo) / 2;
        proof {
            assert(mid * mid <= 0xffff_ffff_ffff_fffe_0000_0000_0000_0001) by (nonlinear_arith)
                requires
                    mid < 0x1_0000_0000_0000_0000,
            ;
        }
        if mid * mid <= n {
            lo = mid;
        } else {
            hi = mid;
        }
    }
    assert(hi == lo + 1);
    lo as u64
}

/// The squared length of `(x, y)`.
pub open spec fn norm_sq(x: int, y: int) -> int {
    x * x + y * y
}

proof fn lemma_square_bound(x: i64)
    ensures
        0 <= x * x <= 0x4000_0000_0000_0000_0000_0000_0000_0000,
{
    assert(0 <= x * x <= 0x4000_0000_0000_0000_0000_0000_0000_0000) by (nonlinear_arith)
        requires
            -0x8000_0000_0000_0000 <= x <= 0x7fff_ffff_ffff_ffff,
    ;
}

/// The integer square root of a non-negative `n`, rounded down.
pub open spec fn isqrt_spec(n: int) -> int {
    choose|r: int| is_isqrt(r, n)
}

/// Each non-negative integer has exactly one rounded-down square root.
pub proof fn lemma_isqrt_unique(r: int, s: int, n: int)
    requires
        is_isqrt(r, n),
        is_isqrt(s, n),
    ensures
        r == s,
{
    if r < s {
        assert((r + 1) * (r + 1) <= s * s) by (nonlinear_arith)
            requires
                0 <= r < s,
        ;
    } else if s < r {
        assert((s + 1) * (s + 1) <= r * r) by (nonlinear_arith)
            requires
                0 <= s < r,
        ;
    }
}

/// A root found by computation is the root that the specification names.
pub proof fn lemma_isqrt_spec(r: int, n: int)
    requires
        is_isqrt(r, n),
    ensures
        isqrt_spec(n) == r,
{
    let s = isqrt_spec(n);
    lemma_isqrt_unique(r, s, n);
}

impl Vec2 {
    /// The length, rounded down (and saturated, which only the longest vectors reach).
    pub open spec fn len_spec(self) -> int {
        saturate_spec(isqrt_spec(norm_sq(self.x as int, self.y as int))) as int
    }

    /// The exact rounded-down length.
    fn root_len(self) -> (r: u64)
        ensures
            is_isqrt(r as int, norm_sq(self.x as int, self.y as int)),
            r == isqrt_spec(norm_sq(self.x as int, self.y as int)),
    {
        proof {
            lemma_square_bound(self.x);
            lemma_square_bound(self.y);
        }
        let xx: i128 = (self.x as i128) * (self.x as i128);
        let yy: i128 = (self.y as i128) * (self.y as i128);
        let n: u128 = (xx as u128) + (yy as u128);
        let r = isqrt(n);
        proof {
            lemma_isqrt_spec(r as int, n as int);
        }
        r
    }

    /// The length, rounded down.
    pub fn len(self) -> (r: Coord)
        ensures
            r == self.len_spec(),
            r >= 0,
    {
        let r = self.root_len();
        saturate(r as i128)
    }

    pub open spec fn add_spec(self, other: Vec2) -> Vec2 {
        Vec2 { x: saturate_spec(self.x + other.x), y: saturate_spec(self.y + other.y) }
    }

    pub open spec fn sub_spec(self, other: Vec2) -> Vec2 {
        Vec2 { x: saturate_spec(self.x - other.x), y: saturate_spec(self.y - other.y) }
    }

    pub open spec fn scaled(self, k: int) -> Vec2 {
        Vec2 {
            x: saturate_spec(mul_fixed_spec(self.x as int, k)),
            y: saturate_spec(mul_fixed_spec(self.y as int, k)),
        }
    }

    /// Sum of two vectors, saturated.
    pub fn add(self, other: Vec2) -> (v: Vec2)
        ensures
            v == self.add_spec(other),
    {
        Vec2 { x: add_sat(self.x, other.x), y: add_sat(self.y, other.y) }
    }

    /// Difference of two vectors, saturated.
    pub fn sub(self, other: Vec2) -> (v: Vec2)
        ensures
            v == self.sub_spec(other),
    {
        Vec2 { x: sub_sat(self.x, other.x), y: sub_sat(self.y, other.y) }
    }

    /// Each coordinate multiplied by the fixed-point factor `k`.
    pub fn scale(self, k: i64) -> (v: Vec2)
        ensures
            v == self.scaled(k as int),
    {
        Vec2 { x: mul_fixed(self.x, k), y: mul_fixed(self.y, k) }
    }

    /// What `normalize_or_zero` gives: the vector scaled to length one (a thousand steps),
    /// or zero for zero. The length is taken to a thousandth of a step (the root of the
    /// squared length times a million) wherever that fits, and to a step beyond, where a
    /// step is far below a thousandth of the length.
    pub open spec fn normalized(self) -> Vec2 {
        let n = norm_sq(self.x as int, self.y as int);
        if n == 0 {
            Vec2 { x: 0, y: 0 }
        } else if n <= norm_fine_limit() {
            let l = isqrt_spec(n * 1_000_000);
            Vec2 {
                x: trunc_div(self.x * 1_000_000, l) as i64,
                y: trunc_div(self.y * 1_000_000, l) as i64,
            }
        } else {
            let l = isqrt_spec(n);
            Vec2 {
                x: trunc_div(self.x * SCALE, l) as i64,
                y: trunc_div(self.y * SCALE, l) as i64,
            }
        }
    }

    /// The squared length, exactly.
    fn norm_sq_exact(self) -> (n: u128)
        ensures
            n == norm_sq(self.x as int, self.y as int),
    {
        proof {
            lemma_square_bound(self.x);
            lemma_square_bound(self.y);
        }
        let xx: i128 = (self.x as i128) * (self.x as i128);
        let yy: i128 = (self.y as i128) * (self.y as i128);
        (xx as u128) + (yy as u128)
    }

    /// The vector scaled to length one (a thousand steps), or zero for the zero vector.
    /// Its length lies between 0.997 and 1.001, and each coordinate keeps its sign.
    pub fn normalize_or_zero(self) -> (v: Vec2)
        ensures
            v == self.normalized(),
            (self.x != 0 || self.y != 0) ==> 997 * 997 <= v.x * v.x + v.y * v.y <= 1001 * 1001,
            self.x >= 0 ==> v.x >= 0,
            self.x <= 0 ==> v.x <= 0,
            self.y >= 0 ==> v.y >= 0,
            self.y <= 0 ==> v.y <= 0,
    {
        let n = self.norm_sq_exact();
        if n == 0 {
            proof {
                assert(self.x == 0 && self.y == 0) by (nonlinear_arith)
                    requires
                        self.x * self.x + self.y * self.y == 0,
                ;
            }
            Vec2::zero()
        } else {
            let fine = n <= 0x1000_0000_0000_0000_0000_0000_0000;
            let factor: i128 = if fine { 1_000_000 } else { 1000 };
            let root_of: u128 = if fine {
                assert(n * 1_000_000 <= u128::MAX) by (nonlinear_arith)
                    requires
                        n <= 0x1000_0000_0000_0000_0000_0000_0000,
                ;
                n * 1_000_000
            } else {
                n
            };
            let l = isqrt(root_of);
            proof {
                lemma_isqrt_spec(l as int, root_of as int);
                lemma_norm_root_large(n as int, fine, l as int);
                lemma_normalize_bounds(self.x as int, self.y as int, factor as int, root_of as int, l as int);
            }
            let x: i128 = div_trunc(self.x as i128 * factor, l as i128);
            let y: i128 = div_trunc(self.y as i128 * factor, l as i128);
            Vec2 { x: x as i64, y: y as i64 }
        }
    }
}

/// Below this squared length the length is taken to a thousandth of a step.
pub open spec fn norm_fine_limit() -> int {
    0x1000_0000_0000_0000_0000_0000_0000
}

/// The root used for normalizing is at least a thousand.
proof fn lemma_norm_root_large(n: int, fine: bool, l: int)
    requires
        n >= 1,
        fine ==> is_isqrt(l, n * 1_000_000),
        !fine ==> is_isqrt(l, n) && n > 0x1000_0000_0000_0000_0000_0000_0000,
    ensures
        l >= 1000,
{
    if l < 1000 {
        assert((l + 1) * (l + 1) <= 1_000_000) by (nonlinear_arith)
            requires
                0 <= l < 1000,
        ;
    }
}

/// `q` is the quotient `a / l` of magnitudes, with the sign of `a`.
proof fn lemma_trunc_magnitude(a: int, l: int)
    requires
        l > 0,
    ensures
        a >= 0 ==> trunc_div(a, l) == a / l && a / l >= 0,
        a < 0 ==> trunc_div(a, l) == -((-a) / l) && (-a) / l >= 0,
{
    if a >= 0 {
        assert(a / l >= 0) by (nonlinear_arith)
            requires
                a >= 0,
                l > 0,
        ;
    } else {
        assert((-a) / l >= 0) by (nonlinear_arith)
            requires
                -a > 0,
                l > 0,
        ;
    }
}

/// Rounded-down quotients of magnitudes whose squares sum to a million times `big`,
/// by the root `l` of `big`, make a vector of length between 0.997 and 1.001.
proof fn lemma_quotient_bounds(ax: int, ay: int, big: int, l: int)
    requires
        ax >= 0,
        ay >= 0,
        ax * ax + ay * ay == big * 1_000_000,
        is_isqrt(l, big),
        l >= 1000,
    ensures
        994009 <= (ax / l) * (ax / l) + (ay / l) * (ay / l) <= 1002001,
        ax / l <= 1001,
        ay / l <= 1001,
{
    let qx = ax / l;
    let qy = ay / l;
    vstd::arithmetic::div_mod::lemma_fundamental_div_mod(ax, l);
    vstd::arithmetic::div_mod::lemma_fundamental_div_mod(ay, l);
    assert(0 <= qx && 0 <= qy) by (nonlinear_arith)
        requires
            ax >= 0,
            ay >= 0,
            l > 0,
            qx == ax / l,
            qy == ay / l,
    ;
    let rx = ax % l;
    let ry = ay % l;
    assert(qx * l <= ax < (qx + 1) * l) by (nonlinear_arith)
        requires
            ax == l * qx + rx,
            0 <= rx < l,
    ;
    assert(qy * l <= ay < (qy + 1) * l) by (nonlinear_arith)
        requires
            ay == l * qy + ry,
            0 <= ry < l,
    ;
    assert((qx * qx + qy * qy) * (l * l) <= ax * ax + ay * ay) by (nonlinear_arith)
        requires
            0 <= qx * l <= ax,
            0 <= qy * l <= ay,
            l > 0,
    ;
    assert(((qx + 1) * (qx + 1) + (qy + 1) * (qy + 1)) * (l * l) > ax * ax + ay * ay) by (nonlinear_arith)
        requires
            0 <= ax < (qx + 1) * l,
            0 <= ay < (qy + 1) * l,
            l > 0,
    ;
    let s = qx * qx + qy * qy;
    assert(s <= 1002001) by (nonlinear_arith)
        requires
            s * (l * l) <= big * 1_000_000,
            big < (l + 1) * (l + 1),
            l >= 1000,
            s >= 0,
    ;
    assert((qx + 1) * (qx + 1) + (qy + 1) * (qy + 1) > 1_000_000) by (nonlinear_arith)
        requires
            ((qx + 1) * (qx + 1) + (qy + 1) * (qy + 1)) * (l * l) > big * 1_000_000,
            l * l <= big,
            l > 0,
    ;
    assert(qx + qy <= 1415) by (nonlinear_arith)
        requires
            qx * qx + qy * qy <= 1002001,
            qx >= 0,
            qy >= 0,
    ;
    assert((qx + 1) * (qx + 1) == qx * qx + 2 * qx + 1) by (nonlinear_arith);
    assert((qy + 1) * (qy + 1) == qy * qy + 2 * qy + 1) by (nonlinear_arith);
    assert(s >= 994009);
    assert(qx <= 1001 && qy <= 1001) by (nonlinear_arith)
        requires
            qx * qx + qy * qy <= 1002001,
            qx >= 0,
            qy >= 0,
    ;
}

/// The coordinates that normalizing gives have the bounded length and keep their signs.
proof fn lemma_normalize_bounds(x: int, y: int, factor: int, big: int, l: int)
    requires
        factor == 1_000_000 || factor == 1000,
        factor == 1_000_000 ==> big == (x * x + y * y) * 1_000_000,
        factor == 1000 ==> big == x * x + y * y,
        is_isqrt(l, big),
        l >= 1000,
    ensures
        994009 <= trunc_div(x * factor, l) * trunc_div(x * factor, l) + trunc_div(y * factor, l) * trunc_div(y * factor, l) <= 1002001,
        -1001 <= trunc_div(x * factor, l) <= 1001,
        -1001 <= trunc_div(y * factor, l) <= 1001,
        x >= 0 ==> trunc_div(x * factor, l) >= 0,
        x <= 0 ==> trunc_div(x * factor, l) <= 0,
        y >= 0 ==> trunc_div(y * factor, l) >= 0,
        y <= 0 ==> trunc_div(y * factor, l) <= 0,
{
    let ax = if x >= 0 { x * factor } else { -(x * factor) };
    let ay = if y >= 0 { y * factor } else { -(y * factor) };
    assert(ax >= 0 && ay >= 0) by (nonlinear_arith)
        requires
            factor > 0,
            ax == if x >= 0 { x * factor } else { -(x * factor) },
            ay == if y >= 0 { y * factor } else { -(y * factor) },
    ;
    assert(ax * ax + ay * ay == (x * x + y * y) * (factor * factor)) by (nonlinear_arith)
        requires
            ax == x * factor || ax == -(x * factor),
            ay == y * factor || ay == -(y * factor),
    ;
    assert(ax * ax + ay * ay == big * 1_000_000) by (nonlinear_arith)
        requires
            ax * ax + ay * ay == (x * x + y * y) * (factor * factor),
            factor == 1_000_000 ==> big == (x * x + y * y) * 1_000_000,
            factor == 1000 ==> big == x * x + y * y,
            factor == 1_000_000 || factor == 1000,
    ;
    lemma_quotient_bounds(ax, ay, big, l);
    lemma_trunc_magnitude(x * factor, l);
    lemma_trunc_magnitude(y * factor, l);
    let tx = trunc_div(x * factor, l);
    let ty = trunc_div(y * factor, l);
    assert(tx == ax / l || tx == -(ax / l));
    assert(ty == ay / l || ty == -(ay / l));
    assert(tx * tx == (ax / l) * (ax / l)) by (nonlinear_arith)
        requires
            tx == ax / l || tx == -(ax / l),
    ;
    assert(ty * ty == (ay / l) * (ay / l)) by (nonlinear_arith)
        requires
            ty == ay / l || ty == -(ay / l),
    ;
    if x == 0 {
        assert(x * factor == 0);
    }
    if y == 0 {
        assert(y * factor == 0);
    }
    assert(x >= 0 ==> x * factor >= 0) by (nonlinear_arith)
        requires
            factor > 0,
    ;
    assert(x < 0 ==> x * factor < 0) by (nonlinear_arith)
        requires
            factor > 0,
    ;
    assert(y >= 0 ==> y * factor >= 0) by (nonlinear_arith)
        requires
            factor > 0,
    ;
    assert(y < 0 ==> y * factor < 0) by (nonlinear_arith)
        requires
            factor > 0,
    ;
}

} // verus!

verus! {

/// The world's size is positive along both axes.
pub open spec fn valid_world(world_size: Vec2) -> bool {
    world_size.x > 0 && world_size.y > 0
}

/// The shortest signed step between two coordinates on a circle of length `w`.
fn wrapped_step(from: i64, to: i64, w: i64) -> (r: i64)
    requires
        w > 0,
    ensures
        r == wrap_delta(to - from, w as int),
        -w < 2 * r <= w,
{
    let d: i128 = to as i128 - from as i128;
    let m = rem_euclid(d, w as i128);
    if 2 * m > w as i128 {
        (m - w as i128) as i64
    } else {
        m as i64
    }
}

impl Position {
    /// The shortest vector from this point to `target` in the wrapping world.
    pub open spec fn direction_spec(self, target: Position, world_size: Vec2) -> Vec2 {
        Vec2 {
            x: wrap_delta(target.x - self.x, world_size.x as int) as i64,
            y: wrap_delta(target.y - self.y, world_size.y as int) as i64,
        }
    }

    /// The shortest vector from this point to `target` in the wrapping world.
    pub fn direction(self, target: Position, world_size: Vec2) -> (v: Vec2)
        requires
            valid_world(world_size),
        ensures
            v == self.direction_spec(target, world_size),
    {
        Vec2 {
            x: wrapped_step(self.x, target.x, world_size.x),
            y: wrapped_step(self.y, target.y, world_size.y),
        }
    }

    pub open spec fn distance_spec(self, other: Position, world_size: Vec2) -> int {
        self.direction_spec(other, world_size).len_spec()
    }

    /// The length of the shortest way to `other` in the wrapping world.
    pub fn distance(self, other: Position, world_size: Vec2) -> (d: Coord)
        requires
            valid_world(world_size),
        ensures
            d == self.distance_spec(other, world_size),
            d >= 0,
    {
        self.direction(other, world_size).len()
    }

    /// What `shift` gives: the point moved by `delta`, wrapped back into the world.
    pub open spec fn shifted(self, delta: Vec2, world_size: Vec2) -> Position {
        Position {
            x: ((self.x + delta.x) % (world_size.x as int)) as i64,
            y: ((self.y + delta.y) % (world_size.y as int)) as i64,
        }
    }

    /// Moves the point by `delta` and wraps it back into the world.
    pub fn shift(&mut self, delta: Vec2, world_size: Vec2)
        requires
            valid_world(world_size),
        ensures
            *final(self) == old(self).shifted(delta, world_size),
    {
        let x = rem_euclid(self.x as i128 + delta.x as i128, world_size.x as i128);
        let y = rem_euclid(self.y as i128 + delta.y as i128, world_size.y as i128);
        *self = Position { x: x as i64, y: y as i64 };
    }
}

} // verus!

verus! {

/// The shortest way between two points never goes more than half around the world,
/// and it leads to the target.
pub proof fn lemma_direction_shortest(from: Position, to: Position, world_size: Vec2)
    requires
        valid_world(world_size),
    ensures
        -world_size.x < 2 * from.direction_spec(to, world_size).x <= world_size.x,
        -world_size.y < 2 * from.direction_spec(to, world_size).y <= world_size.y,
        (from.x + from.direction_spec(to, world_size).x - to.x) % (world_size.x as int) == 0,
        (from.y + from.direction_spec(to, world_size).y - to.y) % (world_size.y as int) == 0,
{
    lemma_wrap_delta(to.x - from.x, world_size.x as int);
    lemma_wrap_delta(to.y - from.y, world_size.y as int);
}

proof fn lemma_wrap_delta(d: int, w: int)
    requires
        w > 0,
    ensures
        -w < 2 * wrap_delta(d, w) <= w,
        (wrap_delta(d, w) - d) % w == 0,
{
    let r = d % w;
    vstd::arithmetic::div_mod::lemma_fundamental_div_mod(d, w);
    let q = d / w;
    if 2 * r > w {
        assert(wrap_delta(d, w) - d == (-q - 1) * w) by (nonlinear_arith)
            requires
                d == w * q + r,
                wrap_delta(d, w) == r - w,
        ;
        vstd::arithmetic::div_mod::lemma_mod_multiples_basic(-q - 1, w);
    } else {
        assert(wrap_delta(d, w) - d == (-q) * w) by (nonlinear_arith)
            requires
                d == w * q + r,
                wrap_delta(d, w) == r,
        ;
        vstd::arithmetic::div_mod::lemma_mod_multiples_basic(-q, w);
    }
}

/// Moving a point keeps it inside the world.
pub proof fn lemma_shift_stays_inside(p: Position, delta: Vec2, world_size: Vec2)
    requires
        valid_world(world_size),
    ensures
        0 <= p.shifted(delta, world_size).x < world_size.x,
        0 <= p.shifted(delta, world_size).y < world_size.y,
{
}

} // verus!

verus! {

/// Every non-negative integer has a rounded-down square root.
pub proof fn lemma_isqrt_exists(n: nat)
    ensures
        is_isqrt(isqrt_spec(n as int), n as int),
    decreases n,
{
    if n == 0 {
        assert(is_isqrt(0, 0));
    } else {
        lemma_isqrt_exists((n - 1) as nat);
        let r = isqrt_spec(n - 1);
        if (r + 1) * (r + 1) == n {
            assert(is_isqrt(r + 1, n as int)) by {
                assert((r + 2) * (r + 2) > (r + 1) * (r + 1)) by (nonlinear_arith)
                    requires
                        r >= 0,
                ;
            }
        } else {
            assert(is_isqrt(r, n as int));
        }
    }
}

/// A positive integer has a positive rounded-down square root.
proof fn lemma_isqrt_positive(n: int)
    requires
        n >= 1,
    ensures
        isqrt_spec(n) >= 1,
        is_isqrt(isqrt_spec(n), n),
{
    lemma_isqrt_exists(n as nat);
    let r = isqrt_spec(n);
    if r == 0 {
        assert((r + 1) * (r + 1) == 1) by (nonlinear_arith)
            requires
                r == 0,
        ;
    }
}

/// Normalizing keeps the sign of each coordinate.
pub proof fn lemma_normalized_signs(v: Vec2)
    ensures
        v.x >= 0 ==> v.normalized().x >= 0,
        v.x <= 0 ==> v.normalized().x <= 0,
        v.y >= 0 ==> v.normalized().y >= 0,
        v.y <= 0 ==> v.normalized().y <= 0,
{
    let n = norm_sq(v.x as int, v.y as int);
    assert(n >= 0) by (nonlinear_arith)
        requires
            n == v.x * v.x + v.y * v.y,
    ;
    if n != 0 {
        if n <= norm_fine_limit() {
            assert(n * 1_000_000 >= 1) by (nonlinear_arith)
                requires
                    n >= 1,
            ;
            lemma_isqrt_positive(n * 1_000_000);
            let l = isqrt_spec(n * 1_000_000);
            lemma_norm_root_large(n, true, l);
            lemma_normalize_bounds(v.x as int, v.y as int, 1_000_000, n * 1_000_000, l);
        } else {
            lemma_isqrt_positive(n);
            let l = isqrt_spec(n);
            lemma_norm_root_large(n, false, l);
            lemma_normalize_bounds(v.x as int, v.y as int, 1000, n, l);
        }
    }
}

/// Scaling by a factor that is not negative keeps the sign of each coordinate.
pub proof fn lemma_scaled_signs(v: Vec2, k: int)
    requires
        k >= 0,
    ensures
        v.x >= 0 ==> v.scaled(k).x >= 0,
        v.x <= 0 ==> v.scaled(k).x <= 0,
        v.y >= 0 ==> v.scaled(k).y >= 0,
        v.y <= 0 ==> v.scaled(k).y <= 0,
{
    lemma_trunc_magnitude(v.x * k, SCALE as int);
    lemma_trunc_magnitude(v.y * k, SCALE as int);
    assert(v.x >= 0 ==> v.x * k >= 0) by (nonlinear_arith)
        requires
            k >= 0,
    ;
    assert(v.x <= 0 ==> v.x * k <= 0) by (nonlinear_arith)
        requires
            k >= 0,
    ;
    assert(v.y >= 0 ==> v.y * k >= 0) by (nonlinear_arith)
        requires
            k >= 0,
    ;
    assert(v.y <= 0 ==> v.y * k <= 0) by (nonlinear_arith)
        requires
            k >= 0,
    ;
    if v.x * k == 0 {
        assert(trunc_div(v.x * k, SCALE as int) == 0);
    }
    if v.y * k == 0 {
        assert(trunc_div(v.y * k, SCALE as int) == 0);
    }
}

} // verus!
