//! Detect-then-track: the decisions of a tracker that follows one face from
//! frame to frame.
//!
//! The tracker holds the region of interest in which the face is expected.
//! The caller runs the detector while there is none, and otherwise computes
//! the landmarks inside the region and reports what it found.

use crate::image::rect::Rect;
use crate::image::view::clipped;
use vstd::prelude::*;

verus! {

/// A tracker of one face.
///
/// It is created without a face. A detection that the caller accepts gives
/// it a region of interest; each frame in which the landmarks are found with
/// confidence moves the region to them; a frame in which they are not takes
/// the region away.
pub struct LandmarkTracker {
    roi: Option<Rect>,
    padding: u32,
}

/// The rectangle `bounds`, given in the coordinates of a view whose top left
/// corner lies at `origin` in the image, in the coordinates of the image and
/// with each side moved outwards by `padding` hundredths of the rectangle's
/// extent in that direction; `None` where its coordinates leave the range
/// of the integers that hold them.
pub open spec fn next_roi(bounds: Rect, origin: (i32, i32), padding: u32) -> Option<Rect> {
    let grow_x = (bounds.w * padding) / 100;
    let grow_y = (bounds.h * padding) / 100;
    let left = bounds.left + origin.0 - grow_x;
    let top = bounds.top + origin.1 - grow_y;
    let width = bounds.w + 2 * grow_x;
    let height = bounds.h + 2 * grow_y;
    if i32::MIN <= left <= i32::MAX && i32::MIN <= top <= i32::MAX && width <= u32::MAX && height
        <= u32::MAX {
        Some(Rect { left: left as i32, top: top as i32, w: width as u32, h: height as u32 })
    } else {
        None
    }
}

/// A region of interest made by [`next_roi`] contains the rectangle it was
/// made from, taken to the image's coordinates: a landmark at `(px, py)` in
/// the view lies at `(px + origin.0, py + origin.1)` in the image, inside
/// the region.
pub proof fn lemma_roi_contains_landmarks(
    bounds: Rect,
    origin: (i32, i32),
    padding: u32,
    px: int,
    py: int,
)
    requires
        next_roi(bounds, origin, padding) is Some,
        bounds.contains(px, py),
    ensures
        next_roi(bounds, origin, padding)->0.contains(px + origin.0, py + origin.1),
{
    assert((bounds.w * padding) / 100 >= 0) by (nonlinear_arith)
        requires
            bounds.w >= 0,
            padding >= 0,
    ;
    assert((bounds.h * padding) / 100 >= 0) by (nonlinear_arith)
        requires
            bounds.h >= 0,
            padding >= 0,
    ;
}

impl LandmarkTracker {
    /// The region of interest, while a face is tracked.
    pub closed spec fn spec_roi(&self) -> Option<Rect> {
        self.roi
    }

    /// By how many hundredths of its extent the region is grown around the
    /// landmarks.
    pub closed spec fn spec_padding(&self) -> u32 {
        self.padding
    }

    /// Creates a tracker that tracks no face yet.
    pub fn new(padding: u32) -> (tracker: Self)
        ensures
            tracker.spec_roi() is None,
            tracker.spec_padding() == padding,
    {
        Self { roi: None, padding }
    }

    /// Returns the region of interest, or `None` while no face is tracked.
    #[verifier::when_used_as_spec(spec_roi)]
    pub fn roi(&self) -> (roi: Option<Rect>)
        ensures
            roi == self.spec_roi(),
    {
        self.roi
    }

    /// Tells whether a face is tracked.
    pub fn is_tracking(&self) -> (tracking: bool)
        ensures
            tracking == self.spec_roi().is_some(),
    {
        self.roi.is_some()
    }

    /// Starts to track the face that was detected in `roi`.
    pub fn set_roi(&mut self, roi: Rect)
        ensures
            final(self).spec_roi() == Some(roi),
            final(self).spec_padding() == old(self).spec_padding(),
    {
        self.roi = Some(roi);
    }

    /// Stops tracking.
    pub fn reset(&mut self)
        ensures
            final(self).spec_roi() is None,
            final(self).spec_padding() == old(self).spec_padding(),
    {
        self.roi = None;
    }

    /// Returns the part of an image of `width` by `height` pixels in which
    /// the landmarks are to be computed: the region of interest, clipped to
    /// the image. Returns `None` while no face is tracked, so that the
    /// caller has to detect one.
    pub fn view_rect(&self, width: u32, height: u32) -> (rect: Option<Rect>)
        ensures
            match self.spec_roi() {
                Some(roi) => rect == Some(clipped(width, height, roi)),
                None => rect is None,
            },
    {
        match self.roi {
            Some(roi) => {
                let whole = Rect::from_top_left(0, 0, width, height);
                match whole.intersection(&roi) {
                    Some(common) => Some(common),
                    None => Some(Rect::from_top_left(0, 0, 0, 0)),
                }
            },
            None => None,
        }
    }

    /// Takes in what the landmarks of one frame gave.
    ///
    /// `origin` is the top left corner, in the image, of the view in which
    /// the landmarks were computed, `confident` says whether the confidence
    /// that the view shows a face reached the threshold, and `bounds` is the
    /// smallest rectangle around the landmarks, in the coordinates of the
    /// view.
    ///
    /// With confidence, the region of interest moves to the landmarks, and
    /// the result is the offset that takes the landmarks from the view to
    /// the image. Without, the face is lost: the tracker holds no region any
    /// more and the result is `None`.
    pub fn track(&mut self, origin: (i32, i32), confident: bool, bounds: Rect) -> (offset: Option<
        (i32, i32),
    >)
        ensures
            final(self).spec_padding() == old(self).spec_padding(),
            old(self).spec_roi() is Some && confident && next_roi(
                bounds,
                origin,
                old(self).spec_padding(),
            ) is Some ==> offset == Some(origin) && final(self).spec_roi() == next_roi(
                bounds,
                origin,
                old(self).spec_padding(),
            ),
            !(old(self).spec_roi() is Some && confident && next_roi(
                bounds,
                origin,
                old(self).spec_padding(),
            ) is Some) ==> offset is None && final(self).spec_roi() is None,
    {
        if self.roi.is_none() || !confident {
            self.roi = None;
            return None;
        }
        assert(bounds.w * self.padding <= 0xffff_ffff * 0xffff_ffff) by (nonlinear_arith)
            requires
                0 <= bounds.w <= 0xffff_ffff,
                0 <= self.padding <= 0xffff_ffff,
        ;
        assert(bounds.h * self.padding <= 0xffff_ffff * 0xffff_ffff) by (nonlinear_arith)
            requires
                0 <= bounds.h <= 0xffff_ffff,
                0 <= self.padding <= 0xffff_ffff,
        ;
        let grow_x = (bounds.w as u64 * self.padding as u64) / 100;
        let grow_y = (bounds.h as u64 * self.padding as u64) / 100;
        let left = bounds.left as i128 + origin.0 as i128 - grow_x as i128;
        let top = bounds.top as i128 + origin.1 as i128 - grow_y as i128;
        let width = bounds.w as u128 + 2 * (grow_x as u128);
        let height = bounds.h as u128 + 2 * (grow_y as u128);
        if left < i32::MIN as i128 || left > i32::MAX as i128 || top < i32::MIN as i128 || top
            > i32::MAX as i128 || width > u32::MAX as u128 || height > u32::MAX as u128 {
            self.roi = None;
            return None;
        }
        self.roi = Some(
            Rect { left: left as i32, top: top as i32, w: width as u32, h: height as u32 },
        );
        Some(origin)
    }
}

} // verus!
