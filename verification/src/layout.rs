//! Dividing a rectangle of the screen among the children of a split.

use vstd::prelude::*;

verus! {

/// The direction in which a split lays out its children.
#[derive(Clone, Copy, Debug, PartialEq, Eq, Structural)]
pub enum Orientation {
    /// The children stand side by side and share the width.
    Horizontal,
    /// The children are stacked and share the height.
    Vertical,
}

/// A rectangle of character cells on the screen.
#[derive(Clone, Copy, Debug, PartialEq, Eq, Structural)]
pub struct Rect {
    pub x: i32,
    pub y: i32,
    pub width: i32,
    pub height: i32,
}

/// The length that child `k` of `n` gets of an axis of length `total`: an equal
/// share, and for the last child also what is left over.
pub open spec fn extent(total: int, n: int, k: int) -> int {
    if k == n - 1 {
        total / n + total % n
    } else {
        total / n
    }
}

/// Where child `k` of `n` begins on an axis of length `total`.
pub open spec fn offset(total: int, n: int, k: int) -> int {
    (total / n) * k
}

/// The lengths of the first `count` of `n` children together.
pub open spec fn extents_sum(total: int, n: int, count: int) -> int
    decreases count,
{
    if count <= 0 {
        0
    } else {
        extents_sum(total, n, count - 1) + extent(total, n, count - 1)
    }
}

/// The children of a split divide its axis exactly: each child begins where
/// the one before it ends, the first at the beginning, and the last ends at
/// the end of the axis. Every child but the last gets `total / n`; the last
/// gets `total % n` more.
pub proof fn lemma_partition(total: int, n: int, k: int)
    requires
        n >= 1,
        0 <= k < n,
    ensures
        extents_sum(total, n, n) == total,
        offset(total, n, k) == extents_sum(total, n, k),
        offset(total, n, k) + extent(total, n, k) == extents_sum(total, n, k + 1),
        k < n - 1 ==> extent(total, n, k) == total / n,
        k == n - 1 ==> extent(total, n, k) == total / n + total % n,
{
    lemma_sum_of_equal_shares(total, n, k);
    lemma_sum_of_equal_shares(total, n, n - 1);
    assert(extents_sum(total, n, n) == extents_sum(total, n, n - 1) + extent(total, n, n - 1));
    assert(total == n * (total / n) + total % n) by (nonlinear_arith)
        requires
            n >= 1,
    ;
    assert((total / n) * (n - 1) + total / n == n * (total / n)) by (nonlinear_arith);
}

proof fn lemma_sum_of_equal_shares(total: int, n: int, count: int)
    requires
        n >= 1,
        0 <= count < n,
    ensures
        extents_sum(total, n, count) == (total / n) * count,
    decreases count,
{
    let each = total / n;
    if count > 0 {
        lemma_sum_of_equal_shares(total, n, count - 1);
        assert(each * (count - 1) + each == each * count) by (nonlinear_arith);
    } else {
        assert(each * count == 0) by (nonlinear_arith)
            requires
                count == 0,
        ;
    }
}

impl Rect {
    /// Width and height are not negative, and the far edges lie within the range
    /// of an `i32`.
    pub open spec fn wf(self) -> bool {
        &&& 0 <= self.width
        &&& 0 <= self.height
        &&& self.x + self.width <= i32::MAX
        &&& self.y + self.height <= i32::MAX
    }

    /// The rectangle of child `k` of `n` in a split that fills `self`.
    pub open spec fn child(self, orientation: Orientation, n: int, k: int) -> Rect {
        match orientation {
            Orientation::Horizontal => Rect {
                x: (self.x + offset(self.width as int, n, k)) as i32,
                width: extent(self.width as int, n, k) as i32,
                ..self
            },
            Orientation::Vertical => Rect {
                y: (self.y + offset(self.height as int, n, k)) as i32,
                height: extent(self.height as int, n, k) as i32,
                ..self
            },
        }
    }

    /// Whether `inner` lies within `self`.
    pub open spec fn holds(self, inner: Rect) -> bool {
        &&& self.x <= inner.x
        &&& self.y <= inner.y
        &&& inner.x + inner.width <= self.x + self.width
        &&& inner.y + inner.height <= self.y + self.height
    }

    /// The rectangle that child `k` of `n` gets of this one.
    pub fn child_rect(&self, orientation: Orientation, n: i32, k: i32) -> (part: Rect)
        requires
            self.wf(),
            n >= 1,
            0 <= k < n,
        ensures
            part == self.child(orientation, n as int, k as int),
            part.wf(),
            self.holds(part),
    {
        match orientation {
            Orientation::Horizontal => {
                let (start, length) = share(self.width, n, k);
                Rect { x: self.x + start, y: self.y, width: length, height: self.height }
            },
            Orientation::Vertical => {
                let (start, length) = share(self.height, n, k);
                Rect { x: self.x, y: self.y + start, width: self.width, height: length }
            },
        }
    }
}

/// Where child `k` of `n` begins on an axis of length `total`, and its length.
pub fn share(total: i32, n: i32, k: i32) -> (part: (i32, i32))
    requires
        total >= 0,
        n >= 1,
        0 <= k < n,
    ensures
        part.0 == offset(total as int, n as int, k as int),
        part.1 == extent(total as int, n as int, k as int),
        0 <= part.0,
        0 <= part.1,
        part.0 + part.1 <= total,
{
    let each = total / n;
    let rest = total % n;
    proof {
        let (t, m, j) = (total as int, n as int, k as int);
        assert(t == m * (t / m) + t % m && 0 <= t % m < m && 0 <= t / m) by (nonlinear_arith)
            requires
                t >= 0,
                m >= 1,
        ;
        assert(0 <= (t / m) * j && (t / m) * j + t / m <= m * (t / m)) by (nonlinear_arith)
            requires
                0 <= j < m,
                0 <= t / m,
        ;
    }
    let start = each * k;
    if k == n - 1 {
        (start, each + rest)
    } else {
        (start, each)
    }
}

} // verus!
