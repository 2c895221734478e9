//! Rectangular views into images, and the operations that read an image
//! through one.

use crate::image::color::Color;
use crate::image::raster::Image;
use crate::image::rect::{max_int, min_int, Rect};
use crate::image::resolution::{fitted_rect, AspectRatio, Resolution};
use vstd::prelude::*;

verus! {

/// The part of `rect` that lies inside an image of `width` by `height`
/// pixels; the empty rectangle at the origin when no part does.
pub open spec fn clipped(width: u32, height: u32, rect: Rect) -> Rect {
    let whole = Rect { left: 0, top: 0, w: width, h: height };
    if whole.overlaps(&rect) {
        Rect {
            left: max_int(0, rect.left as int) as i32,
            top: max_int(0, rect.top as int) as i32,
            w: (min_int(width as int, rect.left + rect.w) - max_int(0, rect.left as int)) as u32,
            h: (min_int(height as int, rect.top + rect.h) - max_int(0, rect.top as int)) as u32,
        }
    } else {
        Rect { left: 0, top: 0, w: 0, h: 0 }
    }
}

/// The source column (or row) that column (or row) `d` of `n` takes its
/// color from when `m` columns are scaled to `n`: the one under the middle
/// of the destination pixel.
pub open spec fn sample(d: int, n: int, m: int) -> int {
    ((2 * d + 1) * m) / (2 * n)
}

/// A sampled column is a column of the source.
pub proof fn lemma_sample_bound(d: int, n: int, m: int)
    requires
        0 <= d < n,
        0 <= m,
    ensures
        0 <= sample(d, n, m),
        m > 0 ==> sample(d, n, m) < m,
{
    assert((2 * d + 1) * m >= 0) by (nonlinear_arith)
        requires
            0 <= d,
            0 <= m,
    ;
    assert(((2 * d + 1) * m) / (2 * n) >= 0) by (nonlinear_arith)
        requires
            (2 * d + 1) * m >= 0,
            n > 0,
    ;
    if m > 0 {
        assert(((2 * d + 1) * m) / (2 * n) < m) by (nonlinear_arith)
            requires
                0 <= d < n,
                0 < m,
        {
            assert((2 * d + 1) * m < (2 * n) * m);
        }
    }
}

/// Computes [`sample`]: the source column under the middle of destination
/// column `d`.
pub fn sample_at(d: u32, n: u32, m: u32) -> (column: u32)
    requires
        d < n,
    ensures
        column == sample(d as int, n as int, m as int),
        m > 0 ==> column < m,
{
    proof {
        lemma_sample_bound(d as int, n as int, m as int);
        assert((2 * d + 1) * m <= 0x1_ffff_ffff * 0xffff_ffff) by (nonlinear_arith)
            requires
                0 <= d <= 0xffff_ffff,
                0 <= m <= 0xffff_ffff,
        ;
        assert(sample(d as int, n as int, m as int) <= m) by (nonlinear_arith)
            requires
                0 <= d < n,
                0 <= m,
                sample(d as int, n as int, m as int) == ((2 * d + 1) * m) / (2 * n),
        {
            assert((2 * d + 1) * m <= (2 * n) * m);
        }
    }
    let middle = (2 * (d as u128) + 1) * (m as u128) / (2 * (n as u128));
    middle as u32
}

/// Clips `rect` to an image of `width` by `height` pixels.
fn clip(width: u32, height: u32, rect: &Rect) -> (part: (u32, u32, u32, u32))
    ensures
        part.0 == clipped(width, height, *rect).left,
        part.1 == clipped(width, height, *rect).top,
        part.2 == clipped(width, height, *rect).w,
        part.3 == clipped(width, height, *rect).h,
        part.0 + part.2 <= width,
        part.1 + part.3 <= height,
{
    let whole = Rect::from_top_left(0, 0, width, height);
    match whole.intersection(rect) {
        Some(common) => (common.x() as u32, common.y() as u32, common.width(), common.height()),
        None => (0, 0, 0, 0),
    }
}

/// The numbers `from, from + 1, ..` up to `from + count - 1`.
fn ascending(from: u32, count: u32) -> (list: Vec<u32>)
    requires
        from + count <= u32::MAX,
    ensures
        list@.len() == count,
        forall|i: int| 0 <= i < count ==> #[trigger] list@[i] == from + i,
{
    let mut list: Vec<u32> = Vec::new();
    let mut i: u32 = 0;
    while i < count
        invariant
            i <= count,
            from + count <= u32::MAX,
            list@.len() == i,
            forall|k: int| 0 <= k < i ==> #[trigger] list@[k] == from + k,
        decreases count - i,
    {
        list.push(from + i);
        i += 1;
    }
    list
}

/// The numbers `from + count - 1, from + count - 2, ..` down to `from`.
fn descending(from: u32, count: u32) -> (list: Vec<u32>)
    requires
        from + count <= u32::MAX,
    ensures
        list@.len() == count,
        forall|i: int| 0 <= i < count ==> #[trigger] list@[i] == from + count - 1 - i,
{
    let mut list: Vec<u32> = Vec::new();
    let mut i: u32 = 0;
    while i < count
        invariant
            i <= count,
            from + count <= u32::MAX,
            list@.len() == i,
            forall|k: int| 0 <= k < i ==> #[trigger] list@[k] == from + count - 1 - k,
        decreases count - i,
    {
        list.push(from + (count - 1 - i));
        i += 1;
    }
    list
}

/// For each of `count` destination columns, the source column
/// `from + sample(d, count, extent)`.
fn sampled(from: u32, count: u32, extent: u32) -> (list: Vec<u32>)
    requires
        from + extent <= u32::MAX,
        extent > 0,
    ensures
        list@.len() == count,
        forall|i: int|
            0 <= i < count ==> #[trigger] list@[i] == from + sample(
                i,
                count as int,
                extent as int,
            ),
        forall|i: int| 0 <= i < count ==> from <= #[trigger] list@[i] < from + extent,
{
    let mut list: Vec<u32> = Vec::new();
    let mut i: u32 = 0;
    while i < count
        invariant
            i <= count,
            from + extent <= u32::MAX,
            extent > 0,
            list@.len() == i,
            forall|k: int|
                0 <= k < i ==> #[trigger] list@[k] == from + sample(
                    k,
                    count as int,
                    extent as int,
                ),
            forall|k: int| 0 <= k < i ==> from <= #[trigger] list@[k] < from + extent,
        decreases count - i,
    {
        proof {
            lemma_sample_bound(i as int, count as int, extent as int);
            assert((2 * i + 1) * extent <= 0x1_ffff_ffff * 0xffff_ffff) by (nonlinear_arith)
                requires
                    0 <= i <= 0xffff_ffff,
                    0 <= extent <= 0xffff_ffff,
            ;
        }
        let middle = (2 * (i as u128) + 1) * (extent as u128) / (2 * (count as u128));
        list.push(from + middle as u32);
        i += 1;
    }
    list
}

/// Builds an image of `out_w` by `out_h` pixels. Its pixel
/// `(tx + dx, ty + dy)` has the color of the pixel `(xs[dx], ys[dy])` of
/// `src`; the pixels that no such pair reaches are black and transparent.
fn remap(src: &Image, out_w: u32, out_h: u32, tx: u32, ty: u32, xs: &Vec<u32>, ys: &Vec<u32>) -> (out:
    Image)
    requires
        src.wf(),
        4 * (out_w * out_h) <= usize::MAX,
        tx + xs@.len() <= out_w,
        ty + ys@.len() <= out_h,
        forall|i: int| 0 <= i < xs@.len() ==> #[trigger] xs@[i] < src.spec_width(),
        forall|j: int| 0 <= j < ys@.len() ==> #[trigger] ys@[j] < src.spec_height(),
    ensures
        out.wf(),
        out.spec_width() == out_w,
        out.spec_height() == out_h,
        forall|x: int, y: int|
            out.has_pixel(x, y) ==> #[trigger] out.pixel(x, y) == (if tx <= x < tx + xs@.len()
                && ty <= y < ty + ys@.len() {
                src.pixel(xs@[x - tx] as int, ys@[y - ty] as int)
            } else {
                Color { red: 0, green: 0, blue: 0, alpha: 0 }
            }),
{
    let mut out = Image::new(out_w, out_h);
    let ghost blank = Color { red: 0, green: 0, blue: 0, alpha: 0 };
    let cols = xs.len();
    let rows = ys.len();
    let mut dy: usize = 0;
    while dy < rows
        invariant
            dy <= rows,
            cols == xs@.len(),
            rows == ys@.len(),
            src.wf(),
            out.wf(),
            out.spec_width() == out_w,
            out.spec_height() == out_h,
            tx + cols <= out_w,
            ty + rows <= out_h,
            forall|i: int| 0 <= i < xs@.len() ==> #[trigger] xs@[i] < src.spec_width(),
            forall|j: int| 0 <= j < ys@.len() ==> #[trigger] ys@[j] < src.spec_height(),
            forall|x: int, y: int|
                out.has_pixel(x, y) ==> #[trigger] out.pixel(x, y) == (if tx <= x < tx + cols && ty
                    <= y < ty + dy {
                    src.pixel(xs@[x - tx] as int, ys@[y - ty] as int)
                } else {
                    blank
                }),
        decreases rows - dy,
    {
        let mut dx: usize = 0;
        while dx < cols
            invariant
                dy < rows,
                dx <= cols,
                cols == xs@.len(),
                rows == ys@.len(),
                src.wf(),
                out.wf(),
                out.spec_width() == out_w,
                out.spec_height() == out_h,
                tx + cols <= out_w,
                ty + rows <= out_h,
                forall|i: int| 0 <= i < xs@.len() ==> #[trigger] xs@[i] < src.spec_width(),
                forall|j: int| 0 <= j < ys@.len() ==> #[trigger] ys@[j] < src.spec_height(),
                forall|x: int, y: int|
                    out.has_pixel(x, y) ==> #[trigger] out.pixel(x, y) == (if tx <= x < tx + cols
                        && (ty <= y < ty + dy || (y == ty + dy && x < tx + dx)) {
                        src.pixel(xs@[x - tx] as int, ys@[y - ty] as int)
                    } else {
                        blank
                    }),
            decreases cols - dx,
        {
            let color = src.get(xs[dx], ys[dy]);
            out.set(tx + dx as u32, ty + dy as u32, color);
            dx += 1;
        }
        dy += 1;
    }
    out
}

/// Copies `src` into `dst` with its top left corner at `(x0, y0)`; the pixels
/// of `dst` outside that area keep their colors.
fn paste(dst: &mut Image, x0: u32, y0: u32, src: &Image)
    requires
        old(dst).wf(),
        src.wf(),
        x0 + src.spec_width() <= old(dst).spec_width(),
        y0 + src.spec_height() <= old(dst).spec_height(),
    ensures
        final(dst).wf(),
        final(dst).spec_width() == old(dst).spec_width(),
        final(dst).spec_height() == old(dst).spec_height(),
        forall|x: int, y: int|
            old(dst).has_pixel(x, y) ==> #[trigger] final(dst).pixel(x, y) == (if x0 <= x < x0
                + src.spec_width() && y0 <= y < y0 + src.spec_height() {
                src.pixel(x - x0, y - y0)
            } else {
                old(dst).pixel(x, y)
            }),
{
    let cols = src.width();
    let rows = src.height();
    let mut dy: u32 = 0;
    while dy < rows
        invariant
            dy <= rows,
            cols == src.spec_width(),
            rows == src.spec_height(),
            src.wf(),
            dst.wf(),
            dst.spec_width() == old(dst).spec_width(),
            dst.spec_height() == old(dst).spec_height(),
            x0 + cols <= dst.spec_width(),
            y0 + rows <= dst.spec_height(),
            forall|x: int, y: int|
                dst.has_pixel(x, y) ==> #[trigger] dst.pixel(x, y) == (if x0 <= x < x0 + cols && y0
                    <= y < y0 + dy {
                    src.pixel(x - x0, y - y0)
                } else {
                    old(dst).pixel(x, y)
                }),
        decreases rows - dy,
    {
        let mut dx: u32 = 0;
        while dx < cols
            invariant
                dy < rows,
                dx <= cols,
                cols == src.spec_width(),
                rows == src.spec_height(),
                src.wf(),
                dst.wf(),
                dst.spec_width() == old(dst).spec_width(),
                dst.spec_height() == old(dst).spec_height(),
                x0 + cols <= dst.spec_width(),
                y0 + rows <= dst.spec_height(),
                forall|x: int, y: int|
                    dst.has_pixel(x, y) ==> #[trigger] dst.pixel(x, y) == (if x0 <= x < x0 + cols
                        && (y0 <= y < y0 + dy || (y == y0 + dy && x < x0 + dx)) {
                        src.pixel(x - x0, y - y0)
                    } else {
                        old(dst).pixel(x, y)
                    }),
            decreases cols - dx,
        {
            let color = src.get(dx, dy);
            dst.set(x0 + dx, y0 + dy, color);
            dx += 1;
        }
        dy += 1;
    }
}

/// Resizing a picture to its own size copies it: each pixel takes its color
/// from the pixel at the same place, and there are no bars.
pub proof fn lemma_resize_same_size(w: u32, h: u32, x: int, y: int)
    requires
        0 <= x < w,
        0 <= y < h,
    ensures
        resize_source(Resolution { w, h }, w, h, x, y) == Some((x, y)),
{
    let fit = fitted_rect(w, h, AspectRatio { horizontal: w, vertical: h });
    assert(w * h == h * w) by (nonlinear_arith);
    assert((w * h) / (w as int) == h) by (nonlinear_arith)
        requires
            w > 0,
    ;
    assert(fit == Rect { left: 0, top: 0, w, h });
    lemma_sample_same_size(x, w as int);
    lemma_sample_same_size(y, h as int);
}

/// Scaled to as many columns as there are, each column is sampled from
/// itself.
pub proof fn lemma_sample_same_size(d: int, n: int)
    requires
        0 <= d < n,
    ensures
        sample(d, n, n) == d,
{
    assert((2 * d + 1) * n == d * (2 * n) + n) by (nonlinear_arith);
    vstd::arithmetic::div_mod::lemma_fundamental_div_mod_converse(
        (2 * d + 1) * n,
        2 * n,
        d,
        n,
    );
}

/// An immutable view of a rectangular section of an [`Image`].
pub struct ImageView<'a> {
    image: &'a Image,
    x: u32,
    y: u32,
    w: u32,
    h: u32,
}

/// A mutable view of a rectangular section of an [`Image`].
///
/// The view covers the `w` by `h` pixels of `image` whose top left corner is
/// `(x, y)`.
pub struct ImageViewMut<'a> {
    pub image: &'a mut Image,
    pub x: u32,
    pub y: u32,
    pub w: u32,
    pub h: u32,
}

/// The pixel of a picture of `w` by `h` pixels whose color the pixel
/// `(x, y)` takes when the picture is resized to `target` with its aspect
/// ratio kept: the nearest one where `(x, y)` lies in the fitted rectangle,
/// and `None` where it lies in the bars around it.
pub open spec fn resize_source(target: Resolution, w: u32, h: u32, x: int, y: int) -> Option<
    (int, int),
> {
    if w == 0 || h == 0 {
        None
    } else {
        let fit = fitted_rect(target.w, target.h, AspectRatio { horizontal: w, vertical: h });
        if fit.contains(x, y) {
            Some(
                (
                    sample(x - fit.left, fit.w as int, w as int),
                    sample(y - fit.top, fit.h as int, h as int),
                ),
            )
        } else {
            None
        }
    }
}

impl<'a> ImageView<'a> {
    /// The width, in pixels.
    pub closed spec fn spec_width(&self) -> u32 {
        self.w
    }

    /// The height, in pixels.
    pub closed spec fn spec_height(&self) -> u32 {
        self.h
    }

    /// The color of the pixel in column `x` of row `y` of the view.
    pub closed spec fn pixel(&self, x: int, y: int) -> Color {
        self.image.pixel(self.x + x, self.y + y)
    }

    /// The view lies inside a well-formed image.
    pub closed spec fn wf(&self) -> bool {
        &&& self.image.wf()
        &&& self.x + self.w <= self.image.spec_width()
        &&& self.y + self.h <= self.image.spec_height()
    }

    /// `(x, y)` are the coordinates of a pixel of the view.
    pub open spec fn has_pixel(&self, x: int, y: int) -> bool {
        0 <= x < self.spec_width() && 0 <= y < self.spec_height()
    }

    /// Returns the width of this view, in pixels.
    #[verifier::when_used_as_spec(spec_width)]
    pub fn width(&self) -> (width: u32)
        ensures
            width == self.spec_width(),
    {
        self.w
    }

    /// Returns the height of this view, in pixels.
    #[verifier::when_used_as_spec(spec_height)]
    pub fn height(&self) -> (height: u32)
        ensures
            height == self.spec_height(),
    {
        self.h
    }

    /// Returns the size of this view.
    pub fn resolution(&self) -> (res: Resolution)
        ensures
            res == (Resolution { w: self.spec_width(), h: self.spec_height() }),
    {
        Resolution::new(self.w, self.h)
    }

    /// Returns the rectangle covering this view: positioned at `(0, 0)`,
    /// with the width and height of the view.
    pub fn rect(&self) -> (rect: Rect)
        ensures
            rect == (Rect { left: 0, top: 0, w: self.spec_width(), h: self.spec_height() }),
    {
        Rect::from_top_left(0, 0, self.w, self.h)
    }

    /// Gets the color of the pixel at the given coordinates of the view.
    pub fn get(&self, x: u32, y: u32) -> (color: Color)
        requires
            self.wf(),
            self.has_pixel(x as int, y as int),
        ensures
            color == self.pixel(x as int, y as int),
    {
        self.image.get(self.x + x, self.y + y)
    }

    /// Borrows an identical view that may live shorter.
    pub fn reborrow(&self) -> (view: ImageView<'_>)
        ensures
            view.wf() == self.wf(),
            view.spec_width() == self.spec_width(),
            view.spec_height() == self.spec_height(),
            forall|x: int, y: int| #[trigger] view.pixel(x, y) == self.pixel(x, y),
    {
        ImageView { image: self.image, x: self.x, y: self.y, w: self.w, h: self.h }
    }

    /// Creates a view of the part of this view that `rect` covers.
    ///
    /// Where `rect` lies partly outside of this view, the result is the part
    /// inside, smaller than `rect`; where it lies fully outside, the result
    /// is empty.
    pub fn view(&self, rect: &Rect) -> (view: ImageView<'_>)
        requires
            self.wf(),
        ensures
            view.wf(),
            view.spec_width() == clipped(self.spec_width(), self.spec_height(), *rect).w,
            view.spec_height() == clipped(self.spec_width(), self.spec_height(), *rect).h,
            forall|x: int, y: int|
                view.has_pixel(x, y) ==> #[trigger] view.pixel(x, y) == self.pixel(
                    clipped(self.spec_width(), self.spec_height(), *rect).left + x,
                    clipped(self.spec_width(), self.spec_height(), *rect).top + y,
                ),
    {
        let (x, y, w, h) = clip(self.w, self.h, rect);
        ImageView { image: self.image, x: self.x + x, y: self.y + y, w, h }
    }

    /// Copies the contents of this view into a new [`Image`].
    pub fn to_image(&self) -> (image: Image)
        requires
            self.wf(),
        ensures
            image.wf(),
            image.spec_width() == self.spec_width(),
            image.spec_height() == self.spec_height(),
            forall|x: int, y: int|
                image.has_pixel(x, y) ==> #[trigger] image.pixel(x, y) == self.pixel(x, y),
    {
        proof {
            self.lemma_fits();
        }
        let xs = ascending(self.x, self.w);
        let ys = ascending(self.y, self.h);
        remap(self.image, self.w, self.h, 0, 0, &xs, &ys)
    }

    /// Copies this view into a new image, mirrored left to right.
    pub fn flip_horizontal(&self) -> (image: Image)
        requires
            self.wf(),
        ensures
            image.wf(),
            image.spec_width() == self.spec_width(),
            image.spec_height() == self.spec_height(),
            forall|x: int, y: int|
                image.has_pixel(x, y) ==> #[trigger] image.pixel(x, y) == self.pixel(
                    self.spec_width() - 1 - x,
                    y,
                ),
    {
        proof {
            self.lemma_fits();
        }
        let xs = descending(self.x, self.w);
        let ys = ascending(self.y, self.h);
        remap(self.image, self.w, self.h, 0, 0, &xs, &ys)
    }

    /// Copies this view into a new image, mirrored top to bottom.
    pub fn flip_vertical(&self) -> (image: Image)
        requires
            self.wf(),
        ensures
            image.wf(),
            image.spec_width() == self.spec_width(),
            image.spec_height() == self.spec_height(),
            forall|x: int, y: int|
                image.has_pixel(x, y) ==> #[trigger] image.pixel(x, y) == self.pixel(
                    x,
                    self.spec_height() - 1 - y,
                ),
    {
        proof {
            self.lemma_fits();
        }
        let xs = ascending(self.x, self.w);
        let ys = descending(self.y, self.h);
        remap(self.image, self.w, self.h, 0, 0, &xs, &ys)
    }

    /// Resizes this view to a new size, adding bars so that its aspect
    /// ratio is kept.
    ///
    /// Each pixel of the result takes the color of the nearest pixel of the
    /// view; nothing is interpolated.
    pub fn aspect_aware_resize(&self, new_res: Resolution) -> (image: Image)
        requires
            self.wf(),
            4 * (new_res.w * new_res.h) <= usize::MAX,
        ensures
            image.wf(),
            image.spec_width() == new_res.w,
            image.spec_height() == new_res.h,
            forall|x: int, y: int|
                image.has_pixel(x, y) ==> #[trigger] image.pixel(x, y) == (match resize_source(
                    new_res,
                    self.spec_width(),
                    self.spec_height(),
                    x,
                    y,
                ) {
                    Some((sx, sy)) => self.pixel(sx, sy),
                    None => Color { red: 0, green: 0, blue: 0, alpha: 0 },
                }),
    {
        match self.resolution().aspect_ratio() {
            None => {
                let none: Vec<u32> = Vec::new();
                remap(self.image, new_res.width(), new_res.height(), 0, 0, &none, &none)
            },
            Some(ratio) => {
                let target = new_res.fit_aspect_ratio(ratio);
                let xs = sampled(self.x, target.width(), self.w);
                let ys = sampled(self.y, target.height(), self.h);
                let out = remap(
                    self.image,
                    new_res.width(),
                    new_res.height(),
                    target.x() as u32,
                    target.y() as u32,
                    &xs,
                    &ys,
                );
                out
            },
        }
    }

    /// The area of a well-formed view is no larger than its image, whose
    /// bytes fit in memory.
    proof fn lemma_fits(&self)
        requires
            self.wf(),
        ensures
            4 * (self.w * self.h) <= usize::MAX,
            self.x + self.w <= u32::MAX,
            self.y + self.h <= u32::MAX,
    {
        self.image.lemma_wf();
        assert(self.w * self.h <= self.image.spec_width() * self.image.spec_height())
            by (nonlinear_arith)
            requires
                0 <= self.w <= self.image.spec_width(),
                0 <= self.h <= self.image.spec_height(),
        ;
    }
}

impl Image {
    /// Creates an immutable view into an area of this image, specified by
    /// `rect`.
    ///
    /// Where `rect` lies partly outside of the image, the result is the part
    /// inside, smaller than `rect`; where it lies fully outside, the result
    /// is empty.
    pub fn view(&self, rect: &Rect) -> (view: ImageView<'_>)
        requires
            self.wf(),
        ensures
            view.wf(),
            view.spec_width() == clipped(self.spec_width(), self.spec_height(), *rect).w,
            view.spec_height() == clipped(self.spec_width(), self.spec_height(), *rect).h,
            forall|x: int, y: int|
                view.has_pixel(x, y) ==> #[trigger] view.pixel(x, y) == self.pixel(
                    clipped(self.spec_width(), self.spec_height(), *rect).left + x,
                    clipped(self.spec_width(), self.spec_height(), *rect).top + y,
                ),
    {
        let (x, y, w, h) = clip(self.width(), self.height(), rect);
        ImageView { image: self, x, y, w, h }
    }

    /// Creates a mutable view into an area of this image, specified by
    /// `rect`, which is clipped to the image as for [`Image::view`].
    pub fn view_mut(&mut self, rect: &Rect) -> (view: ImageViewMut<'_>)
        requires
            old(self).wf(),
        ensures
            view.wf(),
            *view.image == *old(self),
            *final(self) == *final(view.image),
            view.x == clipped(old(self).spec_width(), old(self).spec_height(), *rect).left,
            view.y == clipped(old(self).spec_width(), old(self).spec_height(), *rect).top,
            view.w == clipped(old(self).spec_width(), old(self).spec_height(), *rect).w,
            view.h == clipped(old(self).spec_width(), old(self).spec_height(), *rect).h,
    {
        let (x, y, w, h) = clip(self.width(), self.height(), rect);
        ImageViewMut { image: self, x, y, w, h }
    }

    /// Copies this image, mirrored left to right.
    pub fn flip_horizontal(&self) -> (image: Image)
        requires
            self.wf(),
        ensures
            image.wf(),
            image.spec_width() == self.spec_width(),
            image.spec_height() == self.spec_height(),
            forall|x: int, y: int|
                image.has_pixel(x, y) ==> #[trigger] image.pixel(x, y) == self.pixel(
                    self.spec_width() - 1 - x,
                    y,
                ),
    {
        self.as_view().flip_horizontal()
    }

    /// Copies this image, mirrored top to bottom.
    pub fn flip_vertical(&self) -> (image: Image)
        requires
            self.wf(),
        ensures
            image.wf(),
            image.spec_width() == self.spec_width(),
            image.spec_height() == self.spec_height(),
            forall|x: int, y: int|
                image.has_pixel(x, y) ==> #[trigger] image.pixel(x, y) == self.pixel(
                    x,
                    self.spec_height() - 1 - y,
                ),
    {
        self.as_view().flip_vertical()
    }

    /// Mirrors this image left to right.
    pub fn flip_horizontal_in_place(&mut self)
        requires
            old(self).wf(),
        ensures
            final(self).wf(),
            final(self).spec_width() == old(self).spec_width(),
            final(self).spec_height() == old(self).spec_height(),
            forall|x: int, y: int|
                old(self).has_pixel(x, y) ==> #[trigger] final(self).pixel(x, y) == old(
                    self,
                ).pixel(old(self).spec_width() - 1 - x, y),
    {
        let flipped = self.flip_horizontal();
        *self = flipped;
    }

    /// Mirrors this image top to bottom.
    pub fn flip_vertical_in_place(&mut self)
        requires
            old(self).wf(),
        ensures
            final(self).wf(),
            final(self).spec_width() == old(self).spec_width(),
            final(self).spec_height() == old(self).spec_height(),
            forall|x: int, y: int|
                old(self).has_pixel(x, y) ==> #[trigger] final(self).pixel(x, y) == old(
                    self,
                ).pixel(x, old(self).spec_height() - 1 - y),
    {
        let flipped = self.flip_vertical();
        *self = flipped;
    }

    /// Resizes this image to a new size, adding bars so that its aspect
    /// ratio is kept.
    pub fn aspect_aware_resize(&self, new_res: Resolution) -> (image: Image)
        requires
            self.wf(),
            4 * (new_res.w * new_res.h) <= usize::MAX,
        ensures
            image.wf(),
            image.spec_width() == new_res.w,
            image.spec_height() == new_res.h,
            forall|x: int, y: int|
                image.has_pixel(x, y) ==> #[trigger] image.pixel(x, y) == (match resize_source(
                    new_res,
                    self.spec_width(),
                    self.spec_height(),
                    x,
                    y,
                ) {
                    Some((sx, sy)) => self.pixel(sx, sy),
                    None => Color { red: 0, green: 0, blue: 0, alpha: 0 },
                }),
    {
        self.as_view().aspect_aware_resize(new_res)
    }
}

impl<'a> ImageViewMut<'a> {
    /// The view lies inside a well-formed image.
    pub open spec fn wf(&self) -> bool {
        &&& self.image.wf()
        &&& self.x + self.w <= self.image.spec_width()
        &&& self.y + self.h <= self.image.spec_height()
    }

    /// The color of the pixel in column `x` of row `y` of the view.
    pub open spec fn pixel(&self, x: int, y: int) -> Color {
        self.image.pixel(self.x + x, self.y + y)
    }

    /// `(x, y)` are the coordinates of a pixel of the view.
    pub open spec fn has_pixel(&self, x: int, y: int) -> bool {
        0 <= x < self.w && 0 <= y < self.h
    }

    /// The view covers the same area of an image of the same size as
    /// `other`.
    pub open spec fn same_frame(&self, other: &ImageViewMut) -> bool {
        &&& self.x == other.x
        &&& self.y == other.y
        &&& self.w == other.w
        &&& self.h == other.h
        &&& self.image.spec_width() == other.image.spec_width()
        &&& self.image.spec_height() == other.image.spec_height()
    }

    /// Returns the width of this view, in pixels.
    pub fn width(&self) -> (width: u32)
        ensures
            width == self.w,
    {
        self.w
    }

    /// Returns the height of this view, in pixels.
    pub fn height(&self) -> (height: u32)
        ensures
            height == self.h,
    {
        self.h
    }

    /// Returns the size of this view.
    pub fn resolution(&self) -> (res: Resolution)
        ensures
            res == (Resolution { w: self.w, h: self.h }),
    {
        Resolution::new(self.w, self.h)
    }

    /// Returns the rectangle covering this view: positioned at `(0, 0)`,
    /// with the width and height of the view.
    pub fn rect(&self) -> (rect: Rect)
        ensures
            rect == (Rect { left: 0, top: 0, w: self.w, h: self.h }),
    {
        Rect::from_top_left(0, 0, self.w, self.h)
    }

    /// Gets the color of the pixel at the given coordinates of the view.
    pub fn get(&self, x: u32, y: u32) -> (color: Color)
        requires
            self.wf(),
            self.has_pixel(x as int, y as int),
        ensures
            color == self.pixel(x as int, y as int),
    {
        self.image.get(self.x + x, self.y + y)
    }

    /// Sets the color of the pixel at the given coordinates of the view;
    /// every other pixel of the image keeps its color.
    pub fn set(&mut self, x: u32, y: u32, color: Color)
        requires
            old(self).wf(),
            old(self).has_pixel(x as int, y as int),
        ensures
            final(self).wf(),
            final(self).same_frame(old(self)),
            *final(final(self).image) == *final(old(self).image),
            final(self).pixel(x as int, y as int) == color,
            forall|i: int, j: int|
                old(self).image.has_pixel(i, j) && (i != old(self).x + x || j != old(self).y + y)
                    ==> #[trigger] final(self).image.pixel(i, j) == old(self).image.pixel(i, j),
    {
        self.image.set(self.x + x, self.y + y, color);
    }

    /// Borrows an identical view that may live shorter.
    pub fn reborrow(&mut self) -> (view: ImageViewMut<'_>)
        ensures
            view.x == old(self).x,
            view.y == old(self).y,
            view.w == old(self).w,
            view.h == old(self).h,
            *view.image == *old(self).image,
            *final(self).image == *final(view.image),
            final(self).x == old(self).x,
            final(self).y == old(self).y,
            final(self).w == old(self).w,
            final(self).h == old(self).h,
            *final(final(self).image) == *final(old(self).image),
    {
        ImageViewMut { image: &mut *self.image, x: self.x, y: self.y, w: self.w, h: self.h }
    }

    /// Creates an immutable view of the part of this view that `rect`
    /// covers, clipped to this view.
    pub fn view(&self, rect: &Rect) -> (view: ImageView<'_>)
        requires
            self.wf(),
        ensures
            view.wf(),
            view.spec_width() == clipped(self.w, self.h, *rect).w,
            view.spec_height() == clipped(self.w, self.h, *rect).h,
            forall|x: int, y: int|
                view.has_pixel(x, y) ==> #[trigger] view.pixel(x, y) == self.pixel(
                    clipped(self.w, self.h, *rect).left + x,
                    clipped(self.w, self.h, *rect).top + y,
                ),
    {
        let (x, y, w, h) = clip(self.w, self.h, rect);
        ImageView { image: &*self.image, x: self.x + x, y: self.y + y, w, h }
    }

    /// Creates a mutable view of the part of this view that `rect` covers,
    /// clipped to this view.
    pub fn view_mut(&mut self, rect: &Rect) -> (view: ImageViewMut<'_>)
        requires
            old(self).wf(),
        ensures
            view.wf(),
            view.x == old(self).x + clipped(old(self).w, old(self).h, *rect).left,
            view.y == old(self).y + clipped(old(self).w, old(self).h, *rect).top,
            view.w == clipped(old(self).w, old(self).h, *rect).w,
            view.h == clipped(old(self).w, old(self).h, *rect).h,
            *view.image == *old(self).image,
            *final(self).image == *final(view.image),
            final(self).x == old(self).x,
            final(self).y == old(self).y,
            final(self).w == old(self).w,
            final(self).h == old(self).h,
            *final(final(self).image) == *final(old(self).image),
    {
        let (x, y, w, h) = clip(self.w, self.h, rect);
        ImageViewMut { image: &mut *self.image, x: self.x + x, y: self.y + y, w, h }
    }

    /// Copies this view into a new image, mirrored left to right.
    pub fn flip_horizontal(&self) -> (image: Image)
        requires
            self.wf(),
        ensures
            image.wf(),
            image.spec_width() == self.w,
            image.spec_height() == self.h,
            forall|x: int, y: int|
                image.has_pixel(x, y) ==> #[trigger] image.pixel(x, y) == self.pixel(
                    self.w - 1 - x,
                    y,
                ),
    {
        self.as_view().flip_horizontal()
    }

    /// Copies this view into a new image, mirrored top to bottom.
    pub fn flip_vertical(&self) -> (image: Image)
        requires
            self.wf(),
        ensures
            image.wf(),
            image.spec_width() == self.w,
            image.spec_height() == self.h,
            forall|x: int, y: int|
                image.has_pixel(x, y) ==> #[trigger] image.pixel(x, y) == self.pixel(
                    x,
                    self.h - 1 - y,
                ),
    {
        self.as_view().flip_vertical()
    }

    /// Copies the contents of this view into a new [`Image`].
    pub fn to_image(&self) -> (image: Image)
        requires
            self.wf(),
        ensures
            image.wf(),
            image.spec_width() == self.w,
            image.spec_height() == self.h,
            forall|x: int, y: int|
                image.has_pixel(x, y) ==> #[trigger] image.pixel(x, y) == self.pixel(x, y),
    {
        self.as_view().to_image()
    }

    /// Mirrors the area of this view left to right; the pixels of the image
    /// outside the view keep their colors.
    pub fn flip_horizontal_in_place(&mut self)
        requires
            old(self).wf(),
        ensures
            final(self).wf(),
            final(self).same_frame(old(self)),
            *final(final(self).image) == *final(old(self).image),
            forall|x: int, y: int|
                old(self).has_pixel(x, y) ==> #[trigger] final(self).pixel(x, y) == old(
                    self,
                ).pixel(old(self).w - 1 - x, y),
            forall|i: int, j: int|
                old(self).image.has_pixel(i, j) && !old(self).has_pixel(
                    i - old(self).x,
                    j - old(self).y,
                ) ==> #[trigger] final(self).image.pixel(i, j) == old(self).image.pixel(i, j),
    {
        let flipped = self.flip_horizontal();
        paste(self.image, self.x, self.y, &flipped);
    }

    /// Mirrors the area of this view top to bottom; the pixels of the image
    /// outside the view keep their colors.
    pub fn flip_vertical_in_place(&mut self)
        requires
            old(self).wf(),
        ensures
            final(self).wf(),
            final(self).same_frame(old(self)),
            *final(final(self).image) == *final(old(self).image),
            forall|x: int, y: int|
                old(self).has_pixel(x, y) ==> #[trigger] final(self).pixel(x, y) == old(
                    self,
                ).pixel(x, old(self).h - 1 - y),
            forall|i: int, j: int|
                old(self).image.has_pixel(i, j) && !old(self).has_pixel(
                    i - old(self).x,
                    j - old(self).y,
                ) ==> #[trigger] final(self).image.pixel(i, j) == old(self).image.pixel(i, j),
    {
        let flipped = self.flip_vertical();
        paste(self.image, self.x, self.y, &flipped);
    }
}

/// Types that can be treated as read-only views of image data: [`Image`],
/// [`ImageView`] and [`ImageViewMut`]. Code that takes immutable image data
/// as input takes any of them through this trait.
pub trait AsImageView {
    /// The value is well-formed, so that a view of it can be made.
    spec fn view_wf(&self) -> bool;

    /// The width of the image data, in pixels.
    spec fn view_width(&self) -> u32;

    /// The height of the image data, in pixels.
    spec fn view_height(&self) -> u32;

    /// The color of the pixel in column `x` of row `y` of the image data.
    spec fn view_pixel(&self, x: int, y: int) -> Color;

    /// Returns an [`ImageView`] covering `self`.
    fn as_view(&self) -> (view: ImageView<'_>)
        requires
            self.view_wf(),
        ensures
            view.wf(),
            view.spec_width() == self.view_width(),
            view.spec_height() == self.view_height(),
            forall|x: int, y: int| #[trigger] view.pixel(x, y) == self.view_pixel(x, y),
    ;
}

/// Types that can be treated as mutable views of image data: [`Image`] and
/// [`ImageViewMut`]. Code that writes to image data takes either of them
/// through this trait.
pub trait AsImageViewMut: AsImageView {
    /// The image that a view of the value writes to.
    spec fn raster(&self) -> Image;

    /// The area of that image that the value covers: the column and the row
    /// of its top left corner, its width and its height.
    spec fn frame(&self) -> (u32, u32, u32, u32);

    /// Returns an [`ImageViewMut`] covering `self`. What is written through
    /// it is written to the image that `self` writes to.
    fn as_view_mut(&mut self) -> (view: ImageViewMut<'_>)
        requires
            old(self).view_wf(),
        ensures
            view.wf(),
            *view.image == old(self).raster(),
            final(self).raster() == *final(view.image),
            (view.x, view.y, view.w, view.h) == old(self).frame(),
    ;
}

impl AsImageView for Image {
    open spec fn view_wf(&self) -> bool {
        self.wf()
    }

    open spec fn view_width(&self) -> u32 {
        self.spec_width()
    }

    open spec fn view_height(&self) -> u32 {
        self.spec_height()
    }

    open spec fn view_pixel(&self, x: int, y: int) -> Color {
        self.pixel(x, y)
    }

    fn as_view(&self) -> (view: ImageView<'_>) {
        ImageView { image: self, x: 0, y: 0, w: self.width(), h: self.height() }
    }
}

impl<'a> AsImageView for ImageView<'a> {
    open spec fn view_wf(&self) -> bool {
        self.wf()
    }

    open spec fn view_width(&self) -> u32 {
        self.spec_width()
    }

    open spec fn view_height(&self) -> u32 {
        self.spec_height()
    }

    open spec fn view_pixel(&self, x: int, y: int) -> Color {
        self.pixel(x, y)
    }

    fn as_view(&self) -> (view: ImageView<'_>) {
        self.reborrow()
    }
}

impl<'a> AsImageView for ImageViewMut<'a> {
    open spec fn view_wf(&self) -> bool {
        self.wf()
    }

    open spec fn view_width(&self) -> u32 {
        self.w
    }

    open spec fn view_height(&self) -> u32 {
        self.h
    }

    open spec fn view_pixel(&self, x: int, y: int) -> Color {
        self.pixel(x, y)
    }

    fn as_view(&self) -> (view: ImageView<'_>) {
        ImageView { image: &*self.image, x: self.x, y: self.y, w: self.w, h: self.h }
    }
}

impl AsImageViewMut for Image {
    open spec fn raster(&self) -> Image {
        *self
    }

    open spec fn frame(&self) -> (u32, u32, u32, u32) {
        (0, 0, self.spec_width(), self.spec_height())
    }

    fn as_view_mut(&mut self) -> (view: ImageViewMut<'_>) {
        let w = self.width();
        let h = self.height();
        ImageViewMut { image: self, x: 0, y: 0, w, h }
    }
}

impl<'a> AsImageViewMut for ImageViewMut<'a> {
    open spec fn raster(&self) -> Image {
        *self.image
    }

    open spec fn frame(&self) -> (u32, u32, u32, u32) {
        (self.x, self.y, self.w, self.h)
    }

    fn as_view_mut(&mut self) -> (view: ImageViewMut<'_>)
        ensures
            final(self).frame() == old(self).frame(),
            *final(final(self).image) == *final(old(self).image),
    {
        ImageViewMut { image: &mut *self.image, x: self.x, y: self.y, w: self.w, h: self.h }
    }
}

} // verus!
