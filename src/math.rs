//! Two-dimensional vector algebra on the integer grid.
use vstd::prelude::*;

verus! {

/// True when `r` is the integer square root of `n`, rounded down.
pub open spec fn is_floor_sqrt(r: int, n: int) -> bool {
    0 <= r && r * r <= n && n < (r + 1) * (r + 1)
}

/// The integer square root of `n`, rounded down.
pub open spec fn sqrt_floor(n: int) -> int {
    choose|r: int| is_floor_sqrt(r, n)
}

/// At most one integer is the rounded-down square root of a number.
pub proof fn lemma_floor_sqrt_unique(r: int, s: int, n: int)
    requires
        is_floor_sqrt(r, n),
        is_floor_sqrt(s, n),
    ensures
        r == s,
{
    if r < s {
        assert((r + 1) * (r + 1) <= s * s) by (nonlinear_arith)
            requires
                0 <= r + 1 <= s,
        ;
    } else if s < r {
        assert((s + 1) * (s + 1) <= r * r) by (nonlinear_arith)
            requires
                0 <= s + 1 <= r,
        ;
    }
}

/// Every non-negative number has a rounded-down square root, and `sqrt_floor` is it.
pub proof fn lemma_sqrt_floor(r: int, n: int)
    requires
        is_floor_sqrt(r, n),
    ensures
        sqrt_floor(n) == r,
{
    assert(is_floor_sqrt(r, n));
    let s = sqrt_floor(n);
    lemma_floor_sqrt_unique(r, s, n);
}

/// Integer square root rounded down, by bisection.
pub fn isqrt(n: u128) -> (r: u64)
    ensures
        is_floor_sqrt(r as int, n as int),
        r as int == sqrt_floor(n as int),
{
    let mut lo: u128 = 0;
    let mut hi: u128 = 0x1_0000_0000_0000_0000;
    while lo + 1 < hi
        invariant
            lo < hi <= 0x1_0000_0000_0000_0000,
            lo * lo <= n,
            n < hi * hi,
        decreases hi - lo,
    {
        let mid = lo + (hi - lo) / 2;
        assert(mid * mid <= 0xffff_ffff_ffff_ffff * 0xffff_ffff_ffff_ffff) by (nonlinear_arith)
            requires
                mid < 0x1_0000_0000_0000_0000,
        ;
        if mid * mid <= n {
            lo = mid;
        } else {
            hi = mid;
        }
    }
    assert(hi == lo + 1);
    proof {
        lemma_sqrt_floor(lo as int, n as int);
    }
    lo as u64
}


/// True when `v` can be held in an `i64`.
pub open spec fn fits_i64(v: int) -> bool {
    i64::MIN <= v <= i64::MAX
}

/// A point or a displacement on the integer grid.
#[derive(Clone, Copy, Debug, Default, PartialEq, Eq, Structural)]
pub struct Vector {
    pub x: i64,
    pub y: i64,
}

impl View for Vector {
    type V = (int, int);

    open spec fn view(&self) -> (int, int) {
        (self.x as int, self.y as int)
    }
}

/// A point, seen as the displacement from the origin.
pub type Point = Vector;

/// Where a shape stands: the point its shape is centred on.
pub type Position = Vector;

/// The squared length of the displacement `(dx, dy)`.
pub open spec fn norm_squared(dx: int, dy: int) -> int {
    dx * dx + dy * dy
}

/// Squares stay small: `|a| <= bound` gives `a * a <= bound * bound`.
pub proof fn lemma_square_bound(a: int, bound: int)
    requires
        -bound <= a <= bound,
    ensures
        0 <= a * a <= bound * bound,
{
    assert(0 <= a * a <= bound * bound) by (nonlinear_arith)
        requires
            -bound <= a <= bound,
    ;
}

impl Vector {
    pub fn new(x: i64, y: i64) -> (v: Self)
        ensures
            v@ == (x as int, y as int),
    {
        Self { x, y }
    }

    pub fn get_x(&self) -> (r: i64)
        ensures
            r == self.x,
    {
        self.x
    }

    pub fn get_y(&self) -> (r: i64)
        ensures
            r == self.y,
    {
        self.y
    }

    /// Componentwise sum.
    pub fn add(self, rhs: Vector) -> (v: Vector)
        requires
            fits_i64(self.x + rhs.x),
            fits_i64(self.y + rhs.y),
        ensures
            v@ == (self.x + rhs.x, self.y + rhs.y),
    {
        Vector { x: self.x + rhs.x, y: self.y + rhs.y }
    }

    /// Adds `rhs` in place.
    pub fn add_assign(&mut self, rhs: Vector)
        requires
            fits_i64(old(self).x + rhs.x),
            fits_i64(old(self).y + rhs.y),
        ensures
            final(self)@ == (old(self).x + rhs.x, old(self).y + rhs.y),
    {
        self.x = self.x + rhs.x;
        self.y = self.y + rhs.y;
    }

    /// Componentwise difference.
    pub fn sub(self, rhs: Vector) -> (v: Vector)
        requires
            fits_i64(self.x - rhs.x),
            fits_i64(self.y - rhs.y),
        ensures
            v@ == (self.x - rhs.x, self.y - rhs.y),
    {
        Vector { x: self.x - rhs.x, y: self.y - rhs.y }
    }

    /// The opposite vector.
    pub fn neg(self) -> (v: Vector)
        requires
            fits_i64(-self.x),
            fits_i64(-self.y),
        ensures
            v@ == (-self.x, -self.y),
    {
        Vector { x: -self.x, y: -self.y }
    }

    /// Multiplies both components by `factor`.
    pub fn scale(self, factor: i64) -> (v: Vector)
        requires
            fits_i64(self.x * factor),
            fits_i64(self.y * factor),
        ensures
            v@ == (self.x * factor, self.y * factor),
    {
        Vector { x: self.x * factor, y: self.y * factor }
    }

    /// Componentwise product.
    pub fn mul(self, rhs: Vector) -> (v: Vector)
        requires
            fits_i64(self.x * rhs.x),
            fits_i64(self.y * rhs.y),
        ensures
            v@ == (self.x * rhs.x, self.y * rhs.y),
    {
        Vector { x: self.x * rhs.x, y: self.y * rhs.y }
    }

    /// The length, rounded down to a whole number of grid units.
    pub fn length(&self) -> (r: u64)
        ensures
            r as int == sqrt_floor(norm_squared(self.x as int, self.y as int)),
    {
        let n = squared_norm(self.x as i128, self.y as i128);
        isqrt(n)
    }

    /// The distance from `start_point` to `end_point`, rounded down.
    pub fn distance(end_point: Point, start_point: Point) -> (r: u64)
        requires
            fits_i64(end_point.x - start_point.x),
            fits_i64(end_point.y - start_point.y),
        ensures
            r as int == sqrt_floor(
                norm_squared(end_point.x - start_point.x, end_point.y - start_point.y),
            ),
    {
        end_point.sub(start_point).length()
    }
}

/// `dx * dx + dy * dy`, for components that fit in an `i64`.
pub fn squared_norm(dx: i128, dy: i128) -> (r: u128)
    requires
        fits_i64(dx as int),
        fits_i64(dy as int),
    ensures
        r as int == norm_squared(dx as int, dy as int),
{
    proof {
        lemma_square_bound(dx as int, 0x8000_0000_0000_0000);
        lemma_square_bound(dy as int, 0x8000_0000_0000_0000);
    }
    let xx = (dx * dx) as u128;
    let yy = (dy * dy) as u128;
    xx + yy
}

} // verus!
