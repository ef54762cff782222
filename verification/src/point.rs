use vstd::prelude::*;

verus! {

/// Largest magnitude allowed for a coordinate handled by the generator.
/// Keeping coordinates within this range keeps every product the generator
/// forms (widths, areas, budget percentages) well inside `i64`.
pub const COORD_LIMIT: i64 = 1048576;

/// Largest area a rectangle with coordinates within `COORD_LIMIT` can have.
pub const AREA_LIMIT: i64 = 4 * 1048576 * 1048576;

/// An immutable 2D coordinate with exact (integer) equality.
#[derive(Clone, Copy, PartialEq, Eq, Structural, Debug)]
pub struct Point {
    pub x: i64,
    pub y: i64,
}

/// Strict "by x, tie-break by y" order on points.
pub open spec fn lt_xy(a: Point, b: Point) -> bool {
    a.x < b.x || (a.x == b.x && a.y < b.y)
}

/// Strict "by y, tie-break by x" order on points.
pub open spec fn lt_yx(a: Point, b: Point) -> bool {
    a.y < b.y || (a.y == b.y && a.x < b.x)
}

/// A point's coordinates both lie within `COORD_LIMIT`.
pub open spec fn point_in_bounds(p: Point) -> bool {
    -COORD_LIMIT <= p.x <= COORD_LIMIT && -COORD_LIMIT <= p.y <= COORD_LIMIT
}

/// Integer division truncated toward zero, as the hardware performs it.
pub open spec fn div_toward_zero(a: int, d: int) -> int
    recommends
        d != 0,
{
    if (a >= 0) == (d > 0) {
        abs_int(a) / abs_int(d)
    } else {
        -(abs_int(a) / abs_int(d))
    }
}

pub open spec fn abs_int(a: int) -> int {
    if a < 0 {
        -a
    } else {
        a
    }
}

impl Point {
    pub fn new(x: i64, y: i64) -> (p: Point)
        ensures
            p.x == x && p.y == y,
    {
        Point { x, y }
    }

    pub fn x(&self) -> (r: i64)
        ensures
            r == self.x,
    {
        self.x
    }

    pub fn y(&self) -> (r: i64)
        ensures
            r == self.y,
    {
        self.y
    }

    pub fn set_x(&mut self, x: i64)
        ensures
            final(self).x == x && final(self).y == old(self).y,
    {
        self.x = x;
    }

    pub fn set_y(&mut self, y: i64)
        ensures
            final(self).x == old(self).x && final(self).y == y,
    {
        self.y = y;
    }

    /// Divides both coordinates by `divisor`, truncating toward zero.
    pub fn divide(&mut self, divisor: i64)
        requires
            divisor != 0,
            !(old(self).x == i64::MIN && divisor == -1),
            !(old(self).y == i64::MIN && divisor == -1),
        ensures
            final(self).x == div_toward_zero(old(self).x as int, divisor as int),
            final(self).y == div_toward_zero(old(self).y as int, divisor as int),
    {
        self.x = div_i64(self.x, divisor);
        self.y = div_i64(self.y, divisor);
    }

    /// Adds the other point's coordinates onto this point's.
    pub fn add(&mut self, point: Point)
        requires
            i64::MIN <= old(self).x + point.x <= i64::MAX,
            i64::MIN <= old(self).y + point.y <= i64::MAX,
        ensures
            final(self).x == old(self).x + point.x,
            final(self).y == old(self).y + point.y,
    {
        self.x = self.x + point.x;
        self.y = self.y + point.y;
    }

    /// The legacy spatial key: `x * 10000 + y`, truncated to `u64`. It is
    /// collision-prone by design and serves only as an opaque bucket key.
    pub fn hash(&self) -> (r: u64)
        requires
            point_in_bounds(*self),
        ensures
            r == (self.x * 10000 + self.y) as u64,
    {
        #[verifier::truncate]
        let r = (self.x * 10000 + self.y) as u64;
        r
    }

    /// Total order by x, ties broken by y.
    pub fn compare_x_y(&self, other: &Point) -> (r: core::cmp::Ordering)
        ensures
            r == core::cmp::Ordering::Equal <==> *self == *other,
            r == core::cmp::Ordering::Less <==> lt_xy(*self, *other),
            r == core::cmp::Ordering::Greater <==> lt_xy(*other, *self),
    {
        if self.x == other.x && self.y == other.y {
            return core::cmp::Ordering::Equal;
        }
        if self.x == other.x {
            if self.y < other.y {
                return core::cmp::Ordering::Less;
            }
            return core::cmp::Ordering::Greater;
        }
        if self.x < other.x {
            return core::cmp::Ordering::Less;
        }
        core::cmp::Ordering::Greater
    }

    /// Total order by y, ties broken by x.
    pub fn compare_y_x(&self, other: &Point) -> (r: core::cmp::Ordering)
        ensures
            r == core::cmp::Ordering::Equal <==> *self == *other,
            r == core::cmp::Ordering::Less <==> lt_yx(*self, *other),
            r == core::cmp::Ordering::Greater <==> lt_yx(*other, *self),
    {
        if self.x == other.x && self.y == other.y {
            return core::cmp::Ordering::Equal;
        }
        if self.y == other.y {
            if self.x < other.x {
                return core::cmp::Ordering::Less;
            }
            return core::cmp::Ordering::Greater;
        }
        if self.y < other.y {
            return core::cmp::Ordering::Less;
        }
        core::cmp::Ordering::Greater
    }
}

impl Default for Point {
    fn default() -> (p: Point)
        ensures
            p.x == 0 && p.y == 0,
    {
        Point { x: 0, y: 0 }
    }
}

/// `i64` division truncated toward zero, computed through unsigned division.
fn div_i64(a: i64, d: i64) -> (r: i64)
    requires
        d != 0,
        !(a == i64::MIN && d == -1),
    ensures
        r == div_toward_zero(a as int, d as int),
{
    let ua: u64 = if a == i64::MIN {
        9223372036854775808u64
    } else if a < 0 {
        (-a) as u64
    } else {
        a as u64
    };
    let ud: u64 = if d == i64::MIN {
        9223372036854775808u64
    } else if d < 0 {
        (-d) as u64
    } else {
        d as u64
    };
    let q: u64 = ua / ud;
    proof {
        assert(q <= ua) by (nonlinear_arith)
            requires
                q == ua / ud,
                ud >= 1,
        ;
        if ud >= 2 {
            assert(q <= ua / 2) by (nonlinear_arith)
                requires
                    q == ua / ud,
                    ud >= 2,
            ;
        }
    }
    if (a < 0) == (d < 0) {
        assert(q <= i64::MAX as u64);
        q as i64
    } else {
        if q == 9223372036854775808u64 {
            i64::MIN
        } else {
            assert(q <= i64::MAX as u64);
            -(q as i64)
        }
    }
}

} // verus!
