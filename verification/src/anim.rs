//! Animated images.

use crate::image::codec::{
    animated_png_frames, decode_apng_frames, decode_gif_frames, gif_frames, holds, into_image,
    is_raster, models, png_animated, same_bytes, CodecError, Decoded,
};
use crate::image::raster::Image;
use crate::image::view::{AsImageView, ImageView};
use vstd::prelude::*;

verus! {

/// The file formats that animations are loaded from.
#[derive(PartialEq, Eq, Structural, Clone, Copy, Debug)]
pub enum AnimationFormat {
    Gif,
    Apng,
}

/// A frame of an animation, consisting of image data and a duration.
pub struct AnimationFrame {
    image: Image,
    nanos: u64,
}

/// A timed sequence of images.
pub struct Animation {
    frames: Vec<AnimationFrame>,
}

/// A walk over the [`AnimationFrame`]s that make up an [`Animation`]. Every
/// frame is handed out once: the walk does not start over, even if the
/// animation does.
pub struct FrameIter<'a> {
    frames: &'a [AnimationFrame],
    at: usize,
}

impl AnimationFormat {
    /// The file extensions of animations, as bytes: `gif` for GIF, and
    /// `apng` and `png` for animated PNG.
    pub open spec fn of_extension(extension: Seq<u8>) -> Option<AnimationFormat> {
        if extension == seq![0x67u8, 0x69u8, 0x66u8] {
            Some(AnimationFormat::Gif)
        } else if extension == seq![0x61u8, 0x70u8, 0x6eu8, 0x67u8] || extension == seq![
            0x70u8,
            0x6eu8,
            0x67u8,
        ] {
            Some(AnimationFormat::Apng)
        } else {
            None
        }
    }

    /// Returns the format that a file with the given extension is loaded
    /// as, or `None` where the extension is not one of an animation. The
    /// extension is given as its bytes, without the dot, and has to be in
    /// lower case.
    pub fn from_extension(extension: &[u8]) -> (format: Option<AnimationFormat>)
        ensures
            format == Self::of_extension(extension@),
    {
        let gif: [u8; 3] = [0x67, 0x69, 0x66];
        let apng: [u8; 4] = [0x61, 0x70, 0x6e, 0x67];
        let png: [u8; 3] = [0x70, 0x6e, 0x67];
        assert(gif@ =~= seq![0x67u8, 0x69u8, 0x66u8]);
        assert(apng@ =~= seq![0x61u8, 0x70u8, 0x6eu8, 0x67u8]);
        assert(png@ =~= seq![0x70u8, 0x6eu8, 0x67u8]);
        if same_bytes(extension, gif.as_slice()) {
            Some(AnimationFormat::Gif)
        } else if same_bytes(extension, apng.as_slice()) || same_bytes(extension, png.as_slice()) {
            Some(AnimationFormat::Apng)
        } else {
            None
        }
    }
}

/// The frames that the decoder of the given format finds in `data`, or
/// `None` where it rejects the data or, for an animated PNG, finds a still
/// image.
pub open spec fn decoded_frames(data: Seq<u8>, format: AnimationFormat) -> Option<
    Seq<(u32, u32, Seq<u8>, u64)>,
> {
    match format {
        AnimationFormat::Gif => gif_frames(data),
        AnimationFormat::Apng => animated_png_frames(data),
    }
}

/// Each of the pictures has four bytes for each of its pixels.
pub open spec fn all_rasters(pictures: Seq<(u32, u32, Seq<u8>, u64)>) -> bool {
    forall|i: int|
        0 <= i < pictures.len() ==> is_raster(
            (#[trigger] pictures[i]).0,
            pictures[i].1,
            pictures[i].2,
        )
}

/// The frames show the pictures, each for the picture's time.
pub open spec fn frames_show(
    frames: Seq<AnimationFrame>,
    pictures: Seq<(u32, u32, Seq<u8>, u64)>,
) -> bool {
    &&& frames.len() == pictures.len()
    &&& forall|i: int|
        0 <= i < frames.len() ==> {
            &&& holds(
                &(#[trigger] frames[i]).picture(),
                (pictures[i].0, pictures[i].1, pictures[i].2),
            )
            &&& frames[i].spec_nanos() == pictures[i].3
        }
}

impl AnimationFrame {
    /// The image of the frame.
    pub closed spec fn picture(&self) -> Image {
        self.image
    }

    /// For how many nanoseconds the frame is shown.
    pub closed spec fn spec_nanos(&self) -> u64 {
        self.nanos
    }

    /// A frame that shows `image` for `nanos` nanoseconds.
    pub fn new(image: Image, nanos: u64) -> (frame: AnimationFrame)
        ensures
            frame.picture() == image,
            frame.spec_nanos() == nanos,
    {
        AnimationFrame { image, nanos }
    }

    /// Returns a view of the image data for this frame.
    pub fn image_view(&self) -> (view: ImageView<'_>)
        requires
            self.picture().wf(),
        ensures
            view.wf(),
            view.spec_width() == self.picture().spec_width(),
            view.spec_height() == self.picture().spec_height(),
            forall|x: int, y: int| #[trigger] view.pixel(x, y) == self.picture().pixel(x, y),
    {
        self.image.as_view()
    }

    /// Returns for how many nanoseconds this frame is displayed before the
    /// next one.
    #[verifier::when_used_as_spec(spec_nanos)]
    pub fn duration(&self) -> (nanos: u64)
        ensures
            nanos == self.spec_nanos(),
    {
        self.nanos
    }
}

impl Animation {
    /// The frames, in the order in which they are shown.
    pub closed spec fn view(&self) -> Seq<AnimationFrame> {
        self.frames@
    }

    /// The animation made of the given frames.
    pub fn from_frames(frames: Vec<AnimationFrame>) -> (animation: Animation)
        ensures
            animation@ == frames@,
    {
        Animation { frames }
    }

    /// Makes an animation of the frames that a decoder handed back: each
    /// must have four bytes for each of its pixels.
    pub fn from_decoded(pictures: Vec<Decoded>) -> (result: Result<Animation, CodecError>)
        ensures
            all_rasters(models(pictures@)) ==> (result matches Ok(animation) && frames_show(
                animation@,
                models(pictures@),
            )),
            !all_rasters(models(pictures@)) ==> (result matches Err(CodecError::BufferSize)),
    {
        let ghost all = models(pictures@);
        let mut frames: Vec<AnimationFrame> = Vec::new();
        let mut rest = pictures;
        let mut taken: Vec<AnimationFrame> = Vec::new();
        // the pictures are taken from the back, and put in order afterwards
        while rest.len() > 0
            invariant
                all == models(pictures@),
                rest@.len() + taken@.len() == all.len(),
                models(rest@) == all.subrange(0, rest@.len() as int),
                forall|k: int|
                    0 <= k < taken@.len() ==> {
                        &&& holds(
                            &(#[trigger] taken@[k]).picture(),
                            (all[all.len() - 1 - k].0, all[all.len() - 1 - k].1, all[all.len() - 1
                                - k].2),
                        )
                        &&& taken@[k].spec_nanos() == all[all.len() - 1 - k].3
                    },
                forall|i: int|
                    rest@.len() <= i < all.len() ==> is_raster(
                        (#[trigger] all[i]).0,
                        all[i].1,
                        all[i].2,
                    ),
            decreases rest@.len(),
        {
            let ghost before = rest@;
            let picture = rest.pop().unwrap();
            let nanos = picture.nanos;
            let ghost shown = picture.model();
            proof {
                assert(models(before)[before.len() - 1] == shown);
                assert(all.subrange(0, before.len() as int)[before.len() - 1] == shown);
                assert(all[before.len() - 1] == shown);
                assert(models(rest@) =~= all.subrange(0, rest@.len() as int));
            }
            match into_image(picture) {
                Ok(image) => {
                    taken.push(AnimationFrame::new(image, nanos));
                },
                Err(error) => {
                    assert(!is_raster(shown.0, shown.1, shown.2));
                    assert(!all_rasters(all));
                    return Err(error);
                },
            }
        }
        while taken.len() > 0
            invariant
                frames@.len() + taken@.len() == all.len(),
                forall|k: int|
                    0 <= k < taken@.len() ==> {
                        &&& holds(
                            &(#[trigger] taken@[k]).picture(),
                            (all[all.len() - 1 - k].0, all[all.len() - 1 - k].1, all[all.len() - 1
                                - k].2),
                        )
                        &&& taken@[k].spec_nanos() == all[all.len() - 1 - k].3
                    },
                forall|i: int|
                    0 <= i < frames@.len() ==> {
                        &&& holds(&(#[trigger] frames@[i]).picture(), (all[i].0, all[i].1, all[i].2))
                        &&& frames@[i].spec_nanos() == all[i].3
                    },
                forall|i: int|
                    0 <= i < all.len() ==> is_raster((#[trigger] all[i]).0, all[i].1, all[i].2),
            decreases taken@.len(),
        {
            let frame = taken.pop().unwrap();
            frames.push(frame);
        }
        Ok(Animation { frames })
    }

    /// Loads an animation from an in-memory byte slice.
    pub fn from_data(data: &[u8], format: AnimationFormat) -> (result: Result<Animation, CodecError>)
        ensures
            match decoded_frames(data@, format) {
                Some(pictures) => if all_rasters(pictures) {
                    result matches Ok(animation) && frames_show(animation@, pictures)
                } else {
                    result matches Err(CodecError::BufferSize)
                },
                None => match format {
                    AnimationFormat::Gif => result matches Err(CodecError::Gif(_)),
                    AnimationFormat::Apng => if png_animated(data@) == Some(false) {
                        result matches Err(CodecError::StillImage)
                    } else {
                        result matches Err(CodecError::Png(_))
                    },
                },
            },
    {
        let decoded = match format {
            AnimationFormat::Gif => decode_gif_frames(data),
            AnimationFormat::Apng => decode_apng_frames(data),
        };
        match decoded {
            Ok(pictures) => Self::from_decoded(pictures),
            Err(error) => Err(error),
        }
    }

    /// Returns a walk over the frames of this animation, from the first.
    pub fn frames(&self) -> (iter: FrameIter<'_>)
        ensures
            iter.wf(),
            iter.all() == self@,
            iter.position() == 0,
    {
        FrameIter { frames: self.frames.as_slice(), at: 0 }
    }

    /// Returns the number of frames.
    pub fn len(&self) -> (len: usize)
        ensures
            len == self@.len(),
    {
        self.frames.len()
    }
}

impl<'a> FrameIter<'a> {
    /// All frames of the animation.
    pub closed spec fn all(&self) -> Seq<AnimationFrame> {
        self.frames@
    }

    /// How many frames have been handed out.
    pub closed spec fn position(&self) -> nat {
        self.at as nat
    }

    /// No more frames were handed out than there are.
    pub closed spec fn wf(&self) -> bool {
        self.at <= self.frames@.len()
    }

    /// Hands out the next frame, or `None` when all were handed out.
    pub fn next(&mut self) -> (frame: Option<&'a AnimationFrame>)
        requires
            old(self).wf(),
        ensures
            final(self).wf(),
            final(self).all() == old(self).all(),
            old(self).position() < old(self).all().len() ==> frame == Some(
                &old(self).all()[old(self).position() as int],
            ) && final(self).position() == old(self).position() + 1,
            old(self).position() >= old(self).all().len() ==> frame is None
                && final(self).position() == old(self).position(),
    {
        if self.at < self.frames.len() {
            let frame = &self.frames[self.at];
            self.at += 1;
            Some(frame)
        } else {
            None
        }
    }

    /// Returns how many frames are left, as the lower and the upper bound
    /// of their number.
    pub fn size_hint(&self) -> (bounds: (usize, Option<usize>))
        requires
            self.wf(),
        ensures
            bounds.0 == self.all().len() - self.position(),
            bounds.1 == Some(bounds.0),
    {
        let left = self.frames.len() - self.at;
        (left, Some(left))
    }
}

} // verus!
