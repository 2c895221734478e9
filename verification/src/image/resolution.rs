//! Image sizes and aspect ratios.

use crate::image::rect::Rect;
use vstd::prelude::*;

verus! {

/// The ratio of a width to a height, kept as the two whole numbers it was
/// made from.
#[derive(PartialEq, Eq, Structural, Clone, Copy, Debug)]
pub struct AspectRatio {
    pub horizontal: u32,
    pub vertical: u32,
}

/// The size of an image: its width and height in pixels.
#[derive(PartialEq, Eq, Structural, Clone, Copy, Debug)]
pub struct Resolution {
    pub w: u32,
    pub h: u32,
}

impl AspectRatio {
    /// Both parts of a ratio are positive.
    pub open spec fn wf(&self) -> bool {
        self.horizontal > 0 && self.vertical > 0
    }

    /// The ratio `width : height`, or `None` when one of them is zero.
    pub fn new(width: u32, height: u32) -> (ratio: Option<AspectRatio>)
        ensures
            ratio is Some <==> width > 0 && height > 0,
            ratio matches Some(r) ==> r == (AspectRatio { horizontal: width, vertical: height })
                && r.wf(),
    {
        if width == 0 || height == 0 {
            None
        } else {
            Some(AspectRatio { horizontal: width, vertical: height })
        }
    }

    /// Tells whether a shape of this ratio is wider than it is high.
    pub fn is_landscape(&self) -> (wide: bool)
        ensures
            wide == (self.horizontal > self.vertical),
    {
        self.horizontal > self.vertical
    }
}

/// The largest rectangle of ratio `ratio` (its shorter side rounded down to
/// whole pixels) that fits into `width` by `height`, centered.
pub open spec fn fitted_rect(width: u32, height: u32, ratio: AspectRatio) -> Rect {
    if ratio.horizontal * height >= ratio.vertical * width {
        let fit_h = (width * ratio.vertical) / (ratio.horizontal as int);
        Rect { left: 0, top: ((height - fit_h) / 2) as i32, w: width, h: fit_h as u32 }
    } else {
        let fit_w = (height * ratio.horizontal) / (ratio.vertical as int);
        Rect { left: ((width - fit_w) / 2) as i32, top: 0, w: fit_w as u32, h: height }
    }
}

impl Resolution {
    /// The size `width` by `height`.
    pub fn new(width: u32, height: u32) -> (res: Resolution)
        ensures
            res == (Resolution { w: width, h: height }),
    {
        Resolution { w: width, h: height }
    }

    /// The width, in pixels.
    pub fn width(&self) -> (width: u32)
        ensures
            width == self.w,
    {
        self.w
    }

    /// The height, in pixels.
    pub fn height(&self) -> (height: u32)
        ensures
            height == self.h,
    {
        self.h
    }

    /// The number of pixels of an image of this size.
    pub fn num_pixels(&self) -> (count: u64)
        ensures
            count == self.w * self.h,
    {
        assert(self.w * self.h <= 0xffff_ffff * 0xffff_ffff) by (nonlinear_arith)
            requires
                self.w <= 0xffff_ffff,
                self.h <= 0xffff_ffff,
        ;
        self.w as u64 * self.h as u64
    }

    /// The ratio of width to height, or `None` for a size without pixels.
    pub fn aspect_ratio(&self) -> (ratio: Option<AspectRatio>)
        ensures
            ratio is Some <==> self.w > 0 && self.h > 0,
            ratio matches Some(r) ==> r == (AspectRatio { horizontal: self.w, vertical: self.h }),
    {
        AspectRatio::new(self.w, self.h)
    }

    /// The rectangle covering an image of this size.
    pub fn rect(&self) -> (rect: Rect)
        ensures
            rect == (Rect { left: 0, top: 0, w: self.w, h: self.h }),
    {
        Rect::from_top_left(0, 0, self.w, self.h)
    }

    /// The centered part of this size that content of the given ratio
    /// occupies when it is scaled to fit and the rest is left as bars above
    /// and below it, or to its left and right.
    pub fn fit_aspect_ratio(&self, ratio: AspectRatio) -> (rect: Rect)
        requires
            ratio.wf(),
        ensures
            rect == fitted_rect(self.w, self.h, ratio),
            rect.left >= 0,
            rect.top >= 0,
            rect.left + rect.w <= self.w,
            rect.top + rect.h <= self.h,
            rect.w == self.w || rect.h == self.h,
    {
        let width = self.w as u64;
        let height = self.h as u64;
        let horizontal = ratio.horizontal as u64;
        let vertical = ratio.vertical as u64;
        assert(horizontal * height <= 0xffff_ffff * 0xffff_ffff) by (nonlinear_arith)
            requires
                horizontal <= 0xffff_ffff,
                height <= 0xffff_ffff,
        ;
        assert(vertical * width <= 0xffff_ffff * 0xffff_ffff) by (nonlinear_arith)
            requires
                vertical <= 0xffff_ffff,
                width <= 0xffff_ffff,
        ;
        if horizontal * height >= vertical * width {
            assert(width * vertical == vertical * width) by (nonlinear_arith);
            let fit_h = (width * vertical) / horizontal;
            assert(fit_h <= height) by (nonlinear_arith)
                requires
                    fit_h == (width * vertical) / (horizontal as int),
                    horizontal * height >= width * vertical,
                    horizontal > 0,
            ;
            Rect { left: 0, top: ((height - fit_h) / 2) as i32, w: self.w, h: fit_h as u32 }
        } else {
            assert(height * horizontal == horizontal * height) by (nonlinear_arith);
            let fit_w = (height * horizontal) / vertical;
            assert(fit_w <= width) by (nonlinear_arith)
                requires
                    fit_w == (height * horizontal) / (vertical as int),
                    height * horizontal < vertical * width,
                    vertical > 0,
            ;
            Rect { left: ((width - fit_w) / 2) as i32, top: 0, w: fit_w as u32, h: self.h }
        }
    }
}

} // verus!
