//! Convolutional neural networks that take an image as their input.

use crate::image::color::Color;
use crate::image::resolution::Resolution;
use crate::image::raster::Image;
use crate::image::view::{resize_source, sample, sample_at, ImageView};
use crate::nn::shape::{is_element, offset, shape_fits};
use crate::nn::tensor::Tensor;
use vstd::prelude::*;

verus! {

/// Describes in what order a CNN expects its input image data.
///
/// - `N` is the number of images, fixed at 1.
/// - `C` is the number of color channels, 3 for RGB inputs.
/// - `H` and `W` are the height and width of the input, respectively.
#[derive(PartialEq, Eq, Structural, Clone, Copy, Debug)]
pub enum CnnInputShape {
    /// Shape is `[N, C, H, W]`.
    NCHW,
    /// Shape is `[N, H, W, C]`.
    NHWC,
}

/// Why a network cannot be used as a CNN.
#[derive(PartialEq, Eq, Structural, Clone, Copy, Debug)]
pub enum CnnError {
    /// The network does not take exactly one input; it takes `found`.
    InputCount { found: usize },
    /// The shape of the network's input is not that of one RGB image in the
    /// expected order.
    InputShape,
    /// The width or the height of the input does not fit in 32 bits.
    InputSize,
}

/// The binding of a network to an image input of a fixed size and layout.
#[derive(Clone, Copy, Debug)]
pub struct Cnn {
    shape: CnnInputShape,
    input_res: Resolution,
}

/// The width and height of the image that a tensor of shape `dims` holds
/// in the order `shape`: `dims` must be `[1, 3, H, W]` or `[1, H, W, 3]`.
pub open spec fn image_size(shape: CnnInputShape, dims: Seq<usize>) -> Option<(usize, usize)> {
    if dims.len() == 4 && dims[0] == 1 {
        match shape {
            CnnInputShape::NCHW => if dims[1] == 3 {
                Some((dims[3], dims[2]))
            } else {
                None
            },
            CnnInputShape::NHWC => if dims[3] == 3 {
                Some((dims[2], dims[1]))
            } else {
                None
            },
        }
    } else {
        None
    }
}

/// The shape of the input tensor for an image of the given size.
pub open spec fn tensor_dims(shape: CnnInputShape, res: Resolution) -> Seq<usize> {
    match shape {
        CnnInputShape::NCHW => seq![1usize, 3usize, res.h as usize, res.w as usize],
        CnnInputShape::NHWC => seq![1usize, res.h as usize, res.w as usize, 3usize],
    }
}

/// The color channel that the element at `index` of the input tensor holds.
pub open spec fn channel_of(shape: CnnInputShape, index: Seq<usize>) -> int {
    match shape {
        CnnInputShape::NCHW => index[1] as int,
        CnnInputShape::NHWC => index[3] as int,
    }
}

/// The row of the input pixel that the element at `index` belongs to.
pub open spec fn row_of(shape: CnnInputShape, index: Seq<usize>) -> int {
    match shape {
        CnnInputShape::NCHW => index[2] as int,
        CnnInputShape::NHWC => index[1] as int,
    }
}

/// The column of the input pixel that the element at `index` belongs to.
pub open spec fn column_of(shape: CnnInputShape, index: Seq<usize>) -> int {
    match shape {
        CnnInputShape::NCHW => index[3] as int,
        CnnInputShape::NHWC => index[2] as int,
    }
}

/// The color of the image's pixel that lies under the middle of the input
/// pixel that the element at `index` belongs to.
pub open spec fn sampled_color(
    shape: CnnInputShape,
    res: Resolution,
    image: &ImageView<'_>,
    index: Seq<usize>,
) -> Color {
    image.pixel(
        sample(column_of(shape, index), res.w as int, image.spec_width() as int),
        sample(row_of(shape, index), res.h as int, image.spec_height() as int),
    )
}

impl Cnn {
    /// The order of the input data.
    pub closed spec fn spec_shape(&self) -> CnnInputShape {
        self.shape
    }

    /// The size of the input image.
    pub closed spec fn spec_resolution(&self) -> Resolution {
        self.input_res
    }

    /// Binds a network to an image input.
    ///
    /// The network must take exactly one input, `num_inputs == 1`, and the
    /// shape of that input, `input_shape`, must be `[1, 3, H, W]` for
    /// [`CnnInputShape::NCHW`] or `[1, H, W, 3]` for
    /// [`CnnInputShape::NHWC`].
    pub fn new(shape: CnnInputShape, num_inputs: usize, input_shape: &[usize]) -> (result: Result<
        Cnn,
        CnnError,
    >)
        ensures
            match result {
                Ok(cnn) => {
                    &&& num_inputs == 1
                    &&& image_size(shape, input_shape@) == Some(
                        (cnn.spec_resolution().w as usize, cnn.spec_resolution().h as usize),
                    )
                    &&& cnn.spec_shape() == shape
                },
                Err(CnnError::InputCount { found }) => num_inputs != 1 && found == num_inputs,
                Err(CnnError::InputShape) => num_inputs == 1 && image_size(shape, input_shape@)
                    is None,
                Err(CnnError::InputSize) => num_inputs == 1 && (image_size(
                    shape,
                    input_shape@,
                ) matches Some((w, h)) && (w > u32::MAX || h > u32::MAX)),
            },
    {
        if num_inputs != 1 {
            return Err(CnnError::InputCount { found: num_inputs });
        }
        if input_shape.len() != 4 || input_shape[0] != 1 {
            return Err(CnnError::InputShape);
        }
        let (w, h) = match shape {
            CnnInputShape::NCHW => {
                if input_shape[1] != 3 {
                    return Err(CnnError::InputShape);
                }
                (input_shape[3], input_shape[2])
            },
            CnnInputShape::NHWC => {
                if input_shape[3] != 3 {
                    return Err(CnnError::InputShape);
                }
                (input_shape[2], input_shape[1])
            },
        };
        if w > u32::MAX as usize || h > u32::MAX as usize {
            return Err(CnnError::InputSize);
        }
        Ok(Cnn { shape, input_res: Resolution::new(w as u32, h as u32) })
    }

    /// Returns the expected input image size.
    #[verifier::when_used_as_spec(spec_resolution)]
    pub fn input_resolution(&self) -> (res: Resolution)
        ensures
            res == self.spec_resolution(),
    {
        self.input_res
    }

    /// Returns the order of the input data.
    #[verifier::when_used_as_spec(spec_shape)]
    pub fn input_shape(&self) -> (shape: CnnInputShape)
        ensures
            shape == self.spec_shape(),
    {
        self.shape
    }

    /// Returns the shape of the input tensor.
    pub fn input_dims(&self) -> (dims: [usize; 4])
        ensures
            dims@ == tensor_dims(self.spec_shape(), self.spec_resolution()),
    {
        let dims: [usize; 4] = match self.shape {
            CnnInputShape::NCHW => [1, 3, self.input_res.h as usize, self.input_res.w as usize],
            CnnInputShape::NHWC => [1, self.input_res.h as usize, self.input_res.w as usize, 3],
        };
        assert(dims@ =~= tensor_dims(self.shape, self.input_res));
        dims
    }

    /// Scales an image to the size of the network's input, keeping its
    /// aspect ratio and adding bars. Returns `None` for an image that has
    /// the size of the input already: it is used as it is.
    pub fn fit(&self, image: &ImageView<'_>) -> (resized: Option<Image>)
        requires
            image.wf(),
            4 * (self.spec_resolution().w * self.spec_resolution().h) <= usize::MAX,
        ensures
            resized is None <==> self.spec_resolution() == (Resolution {
                w: image.spec_width(),
                h: image.spec_height(),
            }),
            resized matches Some(out) ==> {
                &&& out.wf()
                &&& out.spec_width() == self.spec_resolution().w
                &&& out.spec_height() == self.spec_resolution().h
                &&& forall|x: int, y: int|
                    out.has_pixel(x, y) ==> #[trigger] out.pixel(x, y) == (match resize_source(
                        self.spec_resolution(),
                        image.spec_width(),
                        image.spec_height(),
                        x,
                        y,
                    ) {
                        Some((sx, sy)) => image.pixel(sx, sy),
                        None => Color { red: 0, green: 0, blue: 0, alpha: 0 },
                    })
            },
    {
        if image.width() == self.input_res.w && image.height() == self.input_res.h {
            None
        } else {
            Some(image.aspect_aware_resize(self.input_res))
        }
    }

    /// Creates the network's input tensor from an image.
    ///
    /// The image is sampled once for each pixel of the input: the input
    /// pixel `(x, y)` takes the color of the image's pixel under its middle,
    /// so an image of another size than the input is stretched. `color_map`
    /// turns the color into the three values that the tensor holds for the
    /// pixel, one for each of red, green and blue.
    pub fn input_tensor<T: Copy, M: Fn(Color) -> [T; 3]>(
        &self,
        image: &ImageView<'_>,
        color_map: &M,
    ) -> (tensor: Tensor<T>)
        requires
            image.wf(),
            image.spec_width() > 0,
            image.spec_height() > 0,
            shape_fits(tensor_dims(self.spec_shape(), self.spec_resolution())),
            forall|color: Color| call_requires(color_map, (color,)),
        ensures
            tensor.wf(),
            tensor.dims() == tensor_dims(self.spec_shape(), self.spec_resolution()),
            forall|index: [usize; 4]|
                is_element(tensor.dims(), index@) ==> exists|values: [T; 3]|
                    {
                        &&& #[trigger] call_ensures(
                            color_map,
                            (sampled_color(self.spec_shape(), self.spec_resolution(), image, index@),),
                            values,
                        )
                        &&& tensor.elems()[offset(tensor.dims(), index@) as int]
                            == values@[channel_of(self.spec_shape(), index@)]
                    },
    {
        let dims = self.input_dims();
        let shape = self.shape;
        let w = self.input_res.w;
        let h = self.input_res.h;
        let src_w = image.width();
        let src_h = image.height();
        let element = |index: [usize; 4]| -> (value: T)
            requires
                is_element(dims@, index@),
            ensures
                exists|values: [T; 3]|
                    {
                        &&& #[trigger] call_ensures(
                            color_map,
                            (sampled_color(shape, self.spec_resolution(), image, index@),),
                            values,
                        )
                        &&& value == values@[channel_of(shape, index@)]
                    },
            {
                assert(index@[0] < dims@[0] && index@[1] < dims@[1] && index@[2] < dims@[2]
                    && index@[3] < dims@[3]);
                let (c, y, x) = match shape {
                    CnnInputShape::NCHW => (index[1], index[2], index[3]),
                    CnnInputShape::NHWC => (index[3], index[1], index[2]),
                };
                let sx = sample_at(x as u32, w, src_w);
                let sy = sample_at(y as u32, h, src_h);
                let color = image.get(sx, sy);
                assert(color == sampled_color(shape, self.spec_resolution(), image, index@));
                let values = color_map(color);
                values[c]
            };
        let tensor = Tensor::from_array_shape_fn(dims, element);
        proof {
            assert forall|index: [usize; 4]| is_element(tensor.dims(), index@) implies exists|
                values: [T; 3],
            |
                {
                    &&& #[trigger] call_ensures(
                        color_map,
                        (sampled_color(self.spec_shape(), self.spec_resolution(), image, index@),),
                        values,
                    )
                    &&& tensor.elems()[offset(tensor.dims(), index@) as int]
                        == values@[channel_of(self.spec_shape(), index@)]
                } by {
                let value = tensor.elems()[offset(tensor.dims(), index@) as int];
                assert(call_ensures(element, (index,), value));
            }
        }
        tensor
    }
}

} // verus!
