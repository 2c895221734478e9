//! Facial landmarks: the named points of the face mesh and the result of
//! computing all of them.

use crate::image::rect::{is_bounding, Rect};
use crate::nn::shape::{element_count, suffix_count};
use crate::nn::tensor::Tensor;
use vstd::prelude::*;

verus! {

/// The number of landmarks of the face mesh.
pub const LANDMARK_COUNT: usize = 468;

/// Assigns a name to certain important landmark indices.
///
/// "Left" and "Right" are relative to the input image, not from the point of
/// view of the depicted person.
#[derive(PartialEq, Eq, Structural, Clone, Copy, Debug)]
pub enum LandmarkIdx {
    MouthLeft,
    MouthRight,
    MouthTop,
    MouthBottom,
    LeftEyeLeftCorner,
    LeftEyeRightCorner,
    LeftEyeTop,
    LeftEyeBottom,
    RightEyeLeftCorner,
    RightEyeRightCorner,
    RightEyeTop,
    RightEyeBottom,
    RightEyebrowLeftCorner,
    LeftEyebrowRightCorner,
}

impl LandmarkIdx {
    /// The place of the named landmark among the landmarks of the face
    /// mesh.
    pub open spec fn spec_index(self) -> usize {
        match self {
            LandmarkIdx::MouthLeft => 78,
            LandmarkIdx::MouthRight => 308,
            LandmarkIdx::MouthTop => 13,
            LandmarkIdx::MouthBottom => 14,
            LandmarkIdx::LeftEyeLeftCorner => 33,
            LandmarkIdx::LeftEyeRightCorner => 133,
            LandmarkIdx::LeftEyeTop => 159,
            LandmarkIdx::LeftEyeBottom => 145,
            LandmarkIdx::RightEyeLeftCorner => 362,
            LandmarkIdx::RightEyeRightCorner => 263,
            LandmarkIdx::RightEyeTop => 386,
            LandmarkIdx::RightEyeBottom => 374,
            LandmarkIdx::RightEyebrowLeftCorner => 295,
            LandmarkIdx::LeftEyebrowRightCorner => 65,
        }
    }

    /// Returns the place of the named landmark among the landmarks of the
    /// face mesh.
    #[verifier::when_used_as_spec(spec_index)]
    pub fn index(self) -> (index: usize)
        ensures
            index == self.spec_index(),
            index < LANDMARK_COUNT,
    {
        match self {
            LandmarkIdx::MouthLeft => 78,
            LandmarkIdx::MouthRight => 308,
            LandmarkIdx::MouthTop => 13,
            LandmarkIdx::MouthBottom => 14,
            LandmarkIdx::LeftEyeLeftCorner => 33,
            LandmarkIdx::LeftEyeRightCorner => 133,
            LandmarkIdx::LeftEyeTop => 159,
            LandmarkIdx::LeftEyeBottom => 145,
            LandmarkIdx::RightEyeLeftCorner => 362,
            LandmarkIdx::RightEyeRightCorner => 263,
            LandmarkIdx::RightEyeTop => 386,
            LandmarkIdx::RightEyeBottom => 374,
            LandmarkIdx::RightEyebrowLeftCorner => 295,
            LandmarkIdx::LeftEyebrowRightCorner => 65,
        }
    }
}

/// Takes the coordinates of the landmarks and the face flag out of what the
/// landmark network emitted: a tensor of shape `[1, 1, 1, 3 * 468]` with
/// three coordinates for each landmark, and a tensor of shape
/// `[1, 1, 1, 1]` with the flag. Returns `None` where the tensors have other
/// shapes.
pub fn read_outputs<'a, T: Copy>(landmarks: &'a Tensor<T>, flag: &Tensor<T>) -> (result: Option<
    (&'a [T], T),
>)
    requires
        landmarks.wf(),
        flag.wf(),
    ensures
        result is Some <==> landmarks.dims() == seq![1usize, 1usize, 1usize, 1404usize]
            && flag.dims() == seq![1usize, 1usize, 1usize, 1usize],
        result matches Some((coords, value)) ==> {
            &&& coords@ == landmarks.elems()
            &&& coords@.len() == 3 * LANDMARK_COUNT
            &&& flag.elems().len() == 1
            &&& value == flag.elems()[0]
        },
{
    let shape = landmarks.shape();
    let flag_shape = flag.shape();
    let shaped = shape.len() == 4 && shape[0] == 1 && shape[1] == 1 && shape[2] == 1 && shape[3]
        == 3 * LANDMARK_COUNT && flag_shape.len() == 4 && flag_shape[0] == 1 && flag_shape[1] == 1
        && flag_shape[2] == 1 && flag_shape[3] == 1;
    if !shaped {
        return None;
    }
    proof {
        assert(landmarks.dims() =~= seq![1usize, 1usize, 1usize, 1404usize]);
        assert(flag.dims() =~= seq![1usize, 1usize, 1usize, 1usize]);
        landmarks.lemma_wf();
        flag.lemma_wf();
        reveal_with_fuel(suffix_count, 6);
        assert(element_count(landmarks.dims()) == 1404) by (nonlinear_arith)
            requires
                element_count(landmarks.dims()) == 1 * (1 * (1 * (1404 * 1))),
        ;
        assert(element_count(flag.dims()) == 1) by (nonlinear_arith)
            requires
                element_count(flag.dims()) == 1 * (1 * (1 * (1 * 1))),
        ;
    }
    let value = flag.data()[0];
    Some((landmarks.data(), value))
}

/// The four landmarks around the left eye.
pub open spec fn left_eye_corners() -> Seq<LandmarkIdx> {
    seq![
        LandmarkIdx::LeftEyeBottom,
        LandmarkIdx::LeftEyeLeftCorner,
        LandmarkIdx::LeftEyeRightCorner,
        LandmarkIdx::LeftEyeTop,
    ]
}

/// The four landmarks around the right eye.
pub open spec fn right_eye_corners() -> Seq<LandmarkIdx> {
    seq![
        LandmarkIdx::RightEyeBottom,
        LandmarkIdx::RightEyeLeftCorner,
        LandmarkIdx::RightEyeRightCorner,
        LandmarkIdx::RightEyeTop,
    ]
}

/// The landmarks computed for one image: for each landmark its position
/// `[x, y, z]`, and a value that says how confident the network is that the
/// image shows a face.
///
/// `T` is the type of a coordinate.
pub struct LandmarkResult<T> {
    positions: Vec<[T; 3]>,
    face_flag: T,
}

impl<T: Copy> LandmarkResult<T> {
    /// The positions of the landmarks, in order.
    pub closed spec fn positions(&self) -> Seq<[T; 3]> {
        self.positions@
    }

    /// The confidence that the image shows a face.
    pub closed spec fn confidence(&self) -> T {
        self.face_flag
    }

    /// A result of `count` landmarks that all lie at `origin`, with
    /// confidence `face_flag`.
    pub fn new(count: usize, origin: T, face_flag: T) -> (result: Self)
        ensures
            result.positions().len() == count,
            forall|i: int| 0 <= i < count ==> (#[trigger] result.positions()[i])@ == seq![
                origin,
                origin,
                origin,
            ],
            result.confidence() == face_flag,
    {
        let mut positions: Vec<[T; 3]> = Vec::new();
        let mut i: usize = 0;
        while i < count
            invariant
                i <= count,
                positions@.len() == i,
                forall|k: int| 0 <= k < i ==> (#[trigger] positions@[k])@ == seq![
                    origin,
                    origin,
                    origin,
                ],
            decreases count - i,
        {
            let position: [T; 3] = [origin, origin, origin];
            assert(position@ =~= seq![origin, origin, origin]);
            positions.push(position);
            i += 1;
        }
        Self { positions, face_flag }
    }

    /// Takes over what the network emitted: `coords` holds the coordinates
    /// of the landmarks, three for each.
    pub fn update(&mut self, coords: &[T], face_flag: T)
        requires
            coords@.len() == 3 * old(self).positions().len(),
        ensures
            final(self).positions().len() == old(self).positions().len(),
            final(self).confidence() == face_flag,
            forall|i: int|
                0 <= i < final(self).positions().len() ==> (#[trigger] final(self).positions()[i])@
                    == coords@.subrange(3 * i, 3 * i + 3),
    {
        self.face_flag = face_flag;
        let count = self.positions.len();
        let total = coords.len();
        let mut i: usize = 0;
        while i < count
            invariant
                i <= count,
                count == self.positions@.len(),
                count == old(self).positions@.len(),
                total == 3 * count,
                total == coords@.len(),
                self.face_flag == face_flag,
                forall|k: int|
                    0 <= k < i ==> (#[trigger] self.positions@[k])@ == coords@.subrange(
                        3 * k,
                        3 * k + 3,
                    ),
            decreases count - i,
        {
            let triple: [T; 3] = [coords[3 * i], coords[3 * i + 1], coords[3 * i + 2]];
            assert(triple@ =~= coords@.subrange(3 * i, 3 * i + 3));
            self.positions.set(i, triple);
            i += 1;
        }
    }

    /// Returns the number of landmarks.
    pub fn landmark_count(&self) -> (count: usize)
        ensures
            count == self.positions().len(),
    {
        self.positions.len()
    }

    /// Returns a landmark's position in the input image's coordinate
    /// system.
    pub fn landmark_position(&self, index: usize) -> (position: (T, T, T))
        requires
            index < self.positions().len(),
        ensures
            position.0 == self.positions()[index as int]@[0],
            position.1 == self.positions()[index as int]@[1],
            position.2 == self.positions()[index as int]@[2],
    {
        let p = &self.positions[index];
        (p[0], p[1], p[2])
    }

    /// Returns the positions of all landmarks, in order.
    pub fn landmark_positions(&self) -> (positions: &[[T; 3]])
        ensures
            positions@ == self.positions(),
    {
        self.positions.as_slice()
    }

    /// Returns the confidence that the input image contains a proper face.
    pub fn face_confidence(&self) -> (confidence: T)
        ensures
            confidence == self.confidence(),
    {
        self.face_flag
    }

    /// Returns the smallest rectangle that contains the four named
    /// landmarks, each taken to the pixel that `to_pixel` gives for its x
    /// and y coordinates; `None` where that rectangle is too large.
    pub fn bounding_rect<F: Fn(T, T) -> (i32, i32)>(
        &self,
        corners: [LandmarkIdx; 4],
        to_pixel: &F,
    ) -> (rect: Option<Rect>)
        requires
            self.positions().len() == LANDMARK_COUNT,
            forall|x: T, y: T| call_requires(to_pixel, (x, y)),
        ensures
            exists|pixels: Seq<(i32, i32)>|
                {
                    &&& pixels.len() == 4
                    &&& #[trigger] is_bounding(pixels, rect)
                    &&& forall|k: int|
                        0 <= k < 4 ==> call_ensures(
                            to_pixel,
                            (
                                self.positions()[corners@[k].spec_index() as int]@[0],
                                self.positions()[corners@[k].spec_index() as int]@[1],
                            ),
                            #[trigger] pixels[k],
                        )
                },
    {
        let mut points: Vec<(i32, i32)> = Vec::new();
        let mut k: usize = 0;
        while k < 4
            invariant
                k <= 4,
                points@.len() == k,
                self.positions().len() == LANDMARK_COUNT,
                forall|x: T, y: T| call_requires(to_pixel, (x, y)),
                forall|j: int|
                    0 <= j < k ==> call_ensures(
                        to_pixel,
                        (
                            self.positions()[corners@[j].spec_index() as int]@[0],
                            self.positions()[corners@[j].spec_index() as int]@[1],
                        ),
                        #[trigger] points@[j],
                    ),
            decreases 4 - k,
        {
            let position = self.landmark_position(corners[k].index());
            let pixel = to_pixel(position.0, position.1);
            points.push(pixel);
            k += 1;
        }
        let rect = Rect::bounding(points.as_slice());
        assert(is_bounding(points@, rect));
        rect
    }

    /// Returns a rectangle containing the left eye.
    pub fn left_eye<F: Fn(T, T) -> (i32, i32)>(&self, to_pixel: &F) -> (rect: Option<Rect>)
        requires
            self.positions().len() == LANDMARK_COUNT,
            forall|x: T, y: T| call_requires(to_pixel, (x, y)),
        ensures
            exists|pixels: Seq<(i32, i32)>|
                {
                    &&& pixels.len() == 4
                    &&& #[trigger] is_bounding(pixels, rect)
                    &&& forall|k: int|
                        0 <= k < 4 ==> call_ensures(
                            to_pixel,
                            (
                                self.positions()[left_eye_corners()[k].spec_index() as int]@[0],
                                self.positions()[left_eye_corners()[k].spec_index() as int]@[1],
                            ),
                            #[trigger] pixels[k],
                        )
                },
    {
        let corners: [LandmarkIdx; 4] = [
            LandmarkIdx::LeftEyeBottom,
            LandmarkIdx::LeftEyeLeftCorner,
            LandmarkIdx::LeftEyeRightCorner,
            LandmarkIdx::LeftEyeTop,
        ];
        assert(corners@ =~= left_eye_corners());
        self.bounding_rect(corners, to_pixel)
    }

    /// Returns a rectangle containing the right eye.
    pub fn right_eye<F: Fn(T, T) -> (i32, i32)>(&self, to_pixel: &F) -> (rect: Option<Rect>)
        requires
            self.positions().len() == LANDMARK_COUNT,
            forall|x: T, y: T| call_requires(to_pixel, (x, y)),
        ensures
            exists|pixels: Seq<(i32, i32)>|
                {
                    &&& pixels.len() == 4
                    &&& #[trigger] is_bounding(pixels, rect)
                    &&& forall|k: int|
                        0 <= k < 4 ==> call_ensures(
                            to_pixel,
                            (
                                self.positions()[right_eye_corners()[k].spec_index() as int]@[0],
                                self.positions()[right_eye_corners()[k].spec_index() as int]@[1],
                            ),
                            #[trigger] pixels[k],
                        )
                },
    {
        let corners: [LandmarkIdx; 4] = [
            LandmarkIdx::RightEyeBottom,
            LandmarkIdx::RightEyeLeftCorner,
            LandmarkIdx::RightEyeRightCorner,
            LandmarkIdx::RightEyeTop,
        ];
        assert(corners@ =~= right_eye_corners());
        self.bounding_rect(corners, to_pixel)
    }
}

} // verus!
