//! Axis-aligned rectangles on the pixel grid.

use vstd::prelude::*;

verus! {

/// An axis-aligned rectangle: the pixels whose coordinates `(px, py)` satisfy
/// `x <= px < x + width` and `y <= py < y + height`.
#[derive(PartialEq, Eq, Structural, Clone, Copy, Debug)]
pub struct Rect {
    pub left: i32,
    pub top: i32,
    pub w: u32,
    pub h: u32,
}

/// The smaller of two numbers.
pub open spec fn min_int(a: int, b: int) -> int {
    if a <= b {
        a
    } else {
        b
    }
}

/// The larger of two numbers.
pub open spec fn max_int(a: int, b: int) -> int {
    if a >= b {
        a
    } else {
        b
    }
}

/// `bounds` is the smallest rectangle that contains every point of
/// `points`; it is `None` when there is no point or when such a rectangle
/// would be wider or higher than a `u32` can say.
pub open spec fn is_bounding(points: Seq<(i32, i32)>, bounds: Option<Rect>) -> bool {
    &&& bounds is Some <==> points.len() > 0 && (forall|i: int, j: int|
        0 <= i < points.len() && 0 <= j < points.len() ==> {
            &&& (#[trigger] points[i]).0 - (#[trigger] points[j]).0 < u32::MAX
            &&& points[i].1 - points[j].1 < u32::MAX
        })
    &&& bounds matches Some(rect) ==> {
        &&& forall|i: int|
            0 <= i < points.len() ==> rect.contains(
                (#[trigger] points[i]).0 as int,
                points[i].1 as int,
            )
        &&& exists|i: int| 0 <= i < points.len() && (#[trigger] points[i]).0 == rect.left
        &&& exists|i: int| 0 <= i < points.len() && (#[trigger] points[i]).1 == rect.top
        &&& exists|i: int| 0 <= i < points.len() && (#[trigger] points[i]).0 == rect.left + rect.w - 1
        &&& exists|i: int| 0 <= i < points.len() && (#[trigger] points[i]).1 == rect.top + rect.h - 1
    }
}

impl Rect {
    /// The pixel `(px, py)` lies inside the rectangle.
    pub open spec fn contains(&self, px: int, py: int) -> bool {
        self.left <= px < self.left + self.w && self.top <= py < self.top + self.h
    }

    /// The two rectangles have a pixel in common.
    pub open spec fn overlaps(&self, other: &Rect) -> bool {
        &&& max_int(self.left as int, other.left as int) < min_int(
            self.left + self.w,
            other.left + other.w,
        )
        &&& max_int(self.top as int, other.top as int) < min_int(
            self.top + self.h,
            other.top + other.h,
        )
    }

    /// Two rectangles overlap exactly when some pixel lies in both.
    pub proof fn lemma_overlaps(&self, other: &Rect)
        ensures
            self.overlaps(other) <==> exists|px: int, py: int|
                self.contains(px, py) && #[trigger] other.contains(px, py),
    {
        if self.overlaps(other) {
            let px = max_int(self.left as int, other.left as int);
            let py = max_int(self.top as int, other.top as int);
            assert(self.contains(px, py) && other.contains(px, py));
        }
    }

    /// The rectangle with the given top left corner and size.
    pub fn from_top_left(x: i32, y: i32, width: u32, height: u32) -> (rect: Rect)
        ensures
            rect == (Rect { left: x, top: y, w: width, h: height }),
    {
        Rect { left: x, top: y, w: width, h: height }
    }

    /// The rectangle of the given size around a center. With an odd size the
    /// center pixel has one pixel less before it than after it and itself.
    pub fn from_center(x_center: i32, y_center: i32, width: u32, height: u32) -> (rect: Rect)
        requires
            x_center - width / 2 >= i32::MIN,
            y_center - height / 2 >= i32::MIN,
        ensures
            rect == (Rect {
                left: (x_center - width / 2) as i32,
                top: (y_center - height / 2) as i32,
                w: width,
                h: height,
            }),
    {
        let left = x_center as i64 - (width / 2) as i64;
        let top = y_center as i64 - (height / 2) as i64;
        Rect { left: left as i32, top: top as i32, w: width, h: height }
    }

    /// The x coordinate of the left edge.
    pub fn x(&self) -> (x: i32)
        ensures
            x == self.left,
    {
        self.left
    }

    /// The y coordinate of the top edge.
    pub fn y(&self) -> (y: i32)
        ensures
            y == self.top,
    {
        self.top
    }

    /// The width, in pixels.
    pub fn width(&self) -> (width: u32)
        ensures
            width == self.w,
    {
        self.w
    }

    /// The height, in pixels.
    pub fn height(&self) -> (height: u32)
        ensures
            height == self.h,
    {
        self.h
    }

    /// Tells whether the pixel `(px, py)` lies inside the rectangle.
    pub fn contains_point(&self, px: i32, py: i32) -> (inside: bool)
        ensures
            inside == self.contains(px as int, py as int),
    {
        let x = px as i64;
        let y = py as i64;
        self.left as i64 <= x && x < self.left as i64 + self.w as i64 && self.top as i64 <= y && y
            < self.top as i64 + self.h as i64
    }

    /// The pixels that lie in both rectangles, or `None` when there is none.
    pub fn intersection(&self, other: &Rect) -> (common: Option<Rect>)
        ensures
            common is Some <==> self.overlaps(other),
            common matches Some(rect) ==> {
                &&& rect.left == max_int(self.left as int, other.left as int)
                &&& rect.top == max_int(self.top as int, other.top as int)
                &&& rect.left + rect.w == min_int(self.left + self.w, other.left + other.w)
                &&& rect.top + rect.h == min_int(self.top + self.h, other.top + other.h)
                &&& forall|px: int, py: int|
                    rect.contains(px, py) <==> self.contains(px, py) && other.contains(px, py)
            },
    {
        let x1 = if self.left >= other.left {
            self.left as i64
        } else {
            other.left as i64
        };
        let y1 = if self.top >= other.top {
            self.top as i64
        } else {
            other.top as i64
        };
        let right_a = self.left as i64 + self.w as i64;
        let right_b = other.left as i64 + other.w as i64;
        let bottom_a = self.top as i64 + self.h as i64;
        let bottom_b = other.top as i64 + other.h as i64;
        let x2 = if right_a <= right_b {
            right_a
        } else {
            right_b
        };
        let y2 = if bottom_a <= bottom_b {
            bottom_a
        } else {
            bottom_b
        };
        if x1 < x2 && y1 < y2 {
            Some(Rect { left: x1 as i32, top: y1 as i32, w: (x2 - x1) as u32, h: (y2 - y1) as u32 })
        } else {
            None
        }
    }

    /// The rectangle moved by `(dx, dy)`.
    pub fn move_by(&self, dx: i32, dy: i32) -> (rect: Rect)
        requires
            i32::MIN <= self.left + dx <= i32::MAX,
            i32::MIN <= self.top + dy <= i32::MAX,
        ensures
            rect == (Rect { left: (self.left + dx) as i32, top: (self.top + dy) as i32, ..*self }),
    {
        Rect { left: self.left + dx, top: self.top + dy, w: self.w, h: self.h }
    }

    /// The rectangle with each edge moved outwards by `amount` pixels.
    pub fn grow(&self, amount: u32) -> (rect: Rect)
        requires
            self.left - amount >= i32::MIN,
            self.top - amount >= i32::MIN,
            self.w + 2 * amount <= u32::MAX,
            self.h + 2 * amount <= u32::MAX,
        ensures
            rect == (Rect {
                left: (self.left - amount) as i32,
                top: (self.top - amount) as i32,
                w: (self.w + 2 * amount) as u32,
                h: (self.h + 2 * amount) as u32,
            }),
    {
        let left = self.left as i64 - amount as i64;
        let top = self.top as i64 - amount as i64;
        let w = self.w as u64 + 2 * (amount as u64);
        let h = self.h as u64 + 2 * (amount as u64);
        Rect { left: left as i32, top: top as i32, w: w as u32, h: h as u32 }
    }

    /// The smallest rectangle that contains every point of `points`, or
    /// `None` when there is no point or such a rectangle would be wider or
    /// higher than a `u32` can say.
    pub fn bounding(points: &[(i32, i32)]) -> (bounds: Option<Rect>)
        ensures
            is_bounding(points@, bounds),
    {
        if points.len() == 0 {
            return None;
        }
        let mut x_min: i32 = points[0].0;
        let mut x_max: i32 = points[0].0;
        let mut y_min: i32 = points[0].1;
        let mut y_max: i32 = points[0].1;
        let mut k: usize = 1;
        while k < points.len()
            invariant
                1 <= k <= points@.len(),
                forall|i: int|
                    0 <= i < k ==> x_min <= (#[trigger] points@[i]).0 <= x_max && y_min
                        <= points@[i].1 <= y_max,
                exists|i: int| 0 <= i < k && (#[trigger] points@[i]).0 == x_min,
                exists|i: int| 0 <= i < k && (#[trigger] points@[i]).0 == x_max,
                exists|i: int| 0 <= i < k && (#[trigger] points@[i]).1 == y_min,
                exists|i: int| 0 <= i < k && (#[trigger] points@[i]).1 == y_max,
            decreases points@.len() - k,
        {
            let (x, y) = points[k];
            if x < x_min {
                x_min = x;
            }
            if x > x_max {
                x_max = x;
            }
            if y < y_min {
                y_min = y;
            }
            if y > y_max {
                y_max = y;
            }
            assert(points@[k as int].0 == x && points@[k as int].1 == y);
            k += 1;
        }
        let width = x_max as i64 - x_min as i64 + 1;
        let height = y_max as i64 - y_min as i64 + 1;
        let ghost ix0 = choose|i: int| 0 <= i < points@.len() && (#[trigger] points@[i]).0 == x_min;
        let ghost ix1 = choose|i: int| 0 <= i < points@.len() && (#[trigger] points@[i]).0 == x_max;
        let ghost iy0 = choose|i: int| 0 <= i < points@.len() && (#[trigger] points@[i]).1 == y_min;
        let ghost iy1 = choose|i: int| 0 <= i < points@.len() && (#[trigger] points@[i]).1 == y_max;
        if width > u32::MAX as i64 || height > u32::MAX as i64 {
            proof {
                if width > u32::MAX {
                    assert(!(points@[ix1].0 - points@[ix0].0 < u32::MAX));
                } else {
                    assert(!(points@[iy1].1 - points@[iy0].1 < u32::MAX));
                }
            }
            None
        } else {
            let rect = Rect { left: x_min, top: y_min, w: width as u32, h: height as u32 };
            proof {
                assert(points@[ix0].0 == rect.left);
                assert(points@[iy0].1 == rect.top);
                assert(points@[ix1].0 == rect.left + rect.w - 1);
                assert(points@[iy1].1 == rect.top + rect.h - 1);
            }
            Some(rect)
        }
    }
}

} // verus!
