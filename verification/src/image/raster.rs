//! Owned RGBA rasters.

use crate::image::color::Color;
use crate::image::rect::Rect;
use crate::image::resolution::Resolution;
use vstd::prelude::*;

verus! {

/// The color whose four parts are stored from byte `4 * index` on.
pub open spec fn color_at(bytes: Seq<u8>, index: int) -> Color {
    Color {
        red: bytes[4 * index],
        green: bytes[4 * index + 1],
        blue: bytes[4 * index + 2],
        alpha: bytes[4 * index + 3],
    }
}

/// In a grid of `w` columns and `h` rows, the cell `(x, y)` has a place of its
/// own among the `w * h` cells, counted row by row.
pub proof fn lemma_cell_index(w: int, h: int, x: int, y: int)
    requires
        0 <= x < w,
        0 <= y < h,
    ensures
        0 <= y * w,
        0 <= y * w + x < w * h,
{
    assert(y * w + x < w * h) by (nonlinear_arith)
        requires
            0 <= x < w,
            0 <= y < h,
    ;
    assert(0 <= y * w) by (nonlinear_arith)
        requires
            0 <= y,
            0 <= w,
    ;
}

/// Two different cells of a grid have different places.
pub proof fn lemma_cell_index_distinct(w: int, x1: int, y1: int, x2: int, y2: int)
    requires
        0 <= x1 < w,
        0 <= x2 < w,
        0 <= y1,
        0 <= y2,
        x1 != x2 || y1 != y2,
    ensures
        y1 * w + x1 != y2 * w + x2,
{
    if y1 < y2 {
        assert(y1 * w + w <= y2 * w) by (nonlinear_arith)
            requires
                y1 + 1 <= y2,
                0 <= w,
        ;
    } else if y2 < y1 {
        assert(y2 * w + w <= y1 * w) by (nonlinear_arith)
            requires
                y2 + 1 <= y1,
                0 <= w,
        ;
    }
}

/// An 8-bit sRGB image with alpha channel.
///
/// The pixels are stored row by row, four bytes each in the order red, green,
/// blue, alpha, with nothing between them.
pub struct Image {
    width: u32,
    height: u32,
    data: Vec<u8>,
}

impl Image {
    /// The width, in pixels.
    pub closed spec fn spec_width(&self) -> u32 {
        self.width
    }

    /// The height, in pixels.
    pub closed spec fn spec_height(&self) -> u32 {
        self.height
    }

    /// The stored bytes.
    pub closed spec fn bytes(&self) -> Seq<u8> {
        self.data@
    }

    /// There are four bytes for each pixel.
    pub closed spec fn wf(&self) -> bool {
        self.data@.len() == 4 * (self.width * self.height)
    }

    /// The color of the pixel in column `x` of row `y`.
    pub open spec fn pixel(&self, x: int, y: int) -> Color {
        color_at(self.bytes(), y * self.spec_width() + x)
    }

    /// `(x, y)` are the coordinates of a pixel of the image.
    pub open spec fn has_pixel(&self, x: int, y: int) -> bool {
        0 <= x < self.spec_width() && 0 <= y < self.spec_height()
    }

    /// A well-formed image stores four bytes for each of its pixels, and
    /// their number fits.
    pub proof fn lemma_wf(&self)
        requires
            self.wf(),
        ensures
            self.bytes().len() == 4 * (self.spec_width() * self.spec_height()),
            4 * (self.spec_width() * self.spec_height()) <= usize::MAX,
    {
        assert(self.data.len() == self.data@.len());
    }

    /// Creates an image of the given size in which every pixel is black and
    /// fully transparent.
    pub fn new(width: u32, height: u32) -> (image: Image)
        requires
            4 * (width * height) <= usize::MAX,
        ensures
            image.wf(),
            image.spec_width() == width,
            image.spec_height() == height,
            forall|x: int, y: int|
                image.has_pixel(x, y) ==> #[trigger] image.pixel(x, y) == (Color {
                    red: 0,
                    green: 0,
                    blue: 0,
                    alpha: 0,
                }),
    {
        assert(width * height >= 0) by (nonlinear_arith)
            requires
                width >= 0,
                height >= 0,
        ;
        let pixels = width as usize * height as usize;
        let data: Vec<u8> = vec![0u8; 4 * pixels];
        let image = Image { width, height, data };
        proof {
            assert forall|x: int, y: int| image.has_pixel(x, y) implies #[trigger] image.pixel(x, y)
                == (Color { red: 0, green: 0, blue: 0, alpha: 0 }) by {
                lemma_cell_index(width as int, height as int, x, y);
            }
        }
        image
    }

    /// Returns the width of this image, in pixels.
    #[verifier::when_used_as_spec(spec_width)]
    pub fn width(&self) -> (width: u32)
        ensures
            width == self.spec_width(),
    {
        self.width
    }

    /// Returns the height of this image, in pixels.
    #[verifier::when_used_as_spec(spec_height)]
    pub fn height(&self) -> (height: u32)
        ensures
            height == self.spec_height(),
    {
        self.height
    }

    /// Returns the size of this image.
    pub fn resolution(&self) -> (res: Resolution)
        ensures
            res == (Resolution { w: self.spec_width(), h: self.spec_height() }),
    {
        Resolution::new(self.width, self.height)
    }

    /// Returns the rectangle covering this image: positioned at `(0, 0)`,
    /// with the width and height of the image.
    pub fn rect(&self) -> (rect: Rect)
        ensures
            rect == (Rect { left: 0, top: 0, w: self.spec_width(), h: self.spec_height() }),
    {
        Rect::from_top_left(0, 0, self.width, self.height)
    }

    /// Gets the color of the pixel at the given coordinates.
    pub fn get(&self, x: u32, y: u32) -> (color: Color)
        requires
            self.wf(),
            self.has_pixel(x as int, y as int),
        ensures
            color == self.pixel(x as int, y as int),
    {
        proof {
            lemma_cell_index(self.width as int, self.height as int, x as int, y as int);
        }
        let len = self.data.len();
        assert(4 * (y * self.width + x) + 3 < len);
        let at = 4 * (y as usize * self.width as usize + x as usize);
        Color {
            red: self.data[at],
            green: self.data[at + 1],
            blue: self.data[at + 2],
            alpha: self.data[at + 3],
        }
    }

    /// Sets the color of the pixel at the given coordinates; every other
    /// pixel keeps its color.
    pub fn set(&mut self, x: u32, y: u32, color: Color)
        requires
            old(self).wf(),
            old(self).has_pixel(x as int, y as int),
        ensures
            final(self).wf(),
            final(self).spec_width() == old(self).spec_width(),
            final(self).spec_height() == old(self).spec_height(),
            final(self).pixel(x as int, y as int) == color,
            forall|i: int, j: int|
                old(self).has_pixel(i, j) && (i != x || j != y) ==> #[trigger] final(self).pixel(
                    i,
                    j,
                ) == old(self).pixel(i, j),
    {
        proof {
            lemma_cell_index(self.width as int, self.height as int, x as int, y as int);
        }
        let len = self.data.len();
        assert(4 * (y * self.width + x) + 3 < len);
        let at = 4 * (y as usize * self.width as usize + x as usize);
        self.data.set(at, color.red);
        self.data.set(at + 1, color.green);
        self.data.set(at + 2, color.blue);
        self.data.set(at + 3, color.alpha);
        proof {
            assert forall|i: int, j: int|
                old(self).has_pixel(i, j) && (i != x || j != y) implies #[trigger] self.pixel(i, j)
                == old(self).pixel(i, j) by {
                lemma_cell_index(self.width as int, self.height as int, i, j);
                lemma_cell_index_distinct(self.width as int, i, j, x as int, y as int);
            }
        }
    }

    /// Clears the image, setting every pixel to `color`.
    pub fn clear(&mut self, color: Color)
        requires
            old(self).wf(),
        ensures
            final(self).wf(),
            final(self).spec_width() == old(self).spec_width(),
            final(self).spec_height() == old(self).spec_height(),
            forall|x: int, y: int|
                final(self).has_pixel(x, y) ==> #[trigger] final(self).pixel(x, y) == color,
    {
        let mut y: u32 = 0;
        while y < self.height
            invariant
                self.wf(),
                self.spec_width() == old(self).spec_width(),
                self.spec_height() == old(self).spec_height(),
                y <= self.spec_height(),
                forall|i: int, j: int|
                    0 <= i < self.spec_width() && 0 <= j < y ==> #[trigger] self.pixel(i, j)
                        == color,
            decreases self.spec_height() - y,
        {
            let mut x: u32 = 0;
            while x < self.width
                invariant
                    self.wf(),
                    self.spec_width() == old(self).spec_width(),
                    self.spec_height() == old(self).spec_height(),
                    y < self.spec_height(),
                    x <= self.spec_width(),
                    forall|i: int, j: int|
                        0 <= i < self.spec_width() && 0 <= j < y ==> #[trigger] self.pixel(i, j)
                            == color,
                    forall|i: int| 0 <= i < x ==> #[trigger] self.pixel(i, y as int) == color,
                decreases self.spec_width() - x,
            {
                self.set(x, y, color);
                x += 1;
            }
            y += 1;
        }
    }

    /// The stored bytes: four for each pixel, row by row.
    pub fn data(&self) -> (bytes: &[u8])
        ensures
            bytes@ == self.bytes(),
    {
        self.data.as_slice()
    }

    /// Makes an image of the given size from its bytes, or `None` unless
    /// there are four bytes for each pixel.
    pub fn from_raw(width: u32, height: u32, data: Vec<u8>) -> (image: Option<Image>)
        ensures
            image is Some <==> data@.len() == 4 * (width * height),
            image matches Some(img) ==> {
                &&& img.wf()
                &&& img.spec_width() == width
                &&& img.spec_height() == height
                &&& img.bytes() == data@
            },
    {
        assert(width * height <= 0xffff_ffff * 0xffff_ffff) by (nonlinear_arith)
            requires
                width <= 0xffff_ffff,
                height <= 0xffff_ffff,
        ;
        let expected = 4 * (width as u128 * height as u128);
        if data.len() as u128 == expected {
            Some(Image { width, height, data })
        } else {
            None
        }
    }
}

impl Clone for Image {
    /// Returns an image of the same size with the same pixels.
    fn clone(&self) -> (image: Self)
        ensures
            image.spec_width() == self.spec_width(),
            image.spec_height() == self.spec_height(),
            image.bytes() == self.bytes(),
            image.wf() == self.wf(),
    {
        let mut data: Vec<u8> = Vec::with_capacity(self.data.len());
        let mut i: usize = 0;
        while i < self.data.len()
            invariant
                i <= self.data@.len(),
                data@ == self.data@.subrange(0, i as int),
            decreases self.data@.len() - i,
        {
            data.push(self.data[i]);
            assert(data@ =~= self.data@.subrange(0, i + 1));
            i += 1;
        }
        assert(data@ =~= self.data@);
        Image { width: self.width, height: self.height, data }
    }
}

} // verus!
