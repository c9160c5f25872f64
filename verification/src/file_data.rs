//! The bytes of a raw image file, before a format and a width are chosen.

use crate::image::Image;
use crate::parser::{decode_cga, lemma_decode_cga_grid, DecodeError, ParserType};
use crate::{divisor_in, divisor_list, is_divisor_list, lemma_divisor_list, ImageType};
use vstd::prelude::*;

verus! {

/// The bytes of a raw image file.
pub struct Raw(Vec<u8>);

impl View for Raw {
    type V = Seq<u8>;

    closed spec fn view(&self) -> Seq<u8> {
        self.0@
    }
}

impl Raw {
    /// The number of pixels that the bytes hold in the packed 4-colour
    /// format.
    pub open spec fn spec_cga_pixels(&self) -> int {
        (self@.len() * 4) as int
    }

    pub fn new(data: &[u8]) -> (raw: Self)
        ensures
            raw@ == data@,
    {
        Self(vstd::slice::slice_to_vec(data))
    }

    pub fn byte_count(&self) -> (n: usize)
        ensures
            n == self@.len(),
    {
        self.0.len()
    }

    /// The number of pixels that the bytes hold at the colour depth
    /// `itype`, which must fit in `usize`.
    pub fn pixel_count(&self, itype: ImageType) -> (n: usize)
        requires
            itype.spec_pixel_count(self@.len()) <= usize::MAX,
        ensures
            n == itype.spec_pixel_count(self@.len()),
    {
        itype.pixel_count(self.byte_count())
    }

    /// Whether the bytes hold exactly one screen of 320 by 200 pixels.
    pub fn fullscreen(&self, itype: ImageType) -> (full: bool)
        ensures
            full == (itype.spec_pixel_count(self@.len()) == crate::FULLSCREEN_PIXELS),
    {
        itype.fullscreen(self.byte_count())
    }

    /// The widths from 5 to 80 at which the bytes fill whole rows, in
    /// rising order.
    pub fn widths(&self, itype: ImageType) -> (list: Vec<i64>)
        requires
            itype.spec_pixel_count(self@.len()) <= usize::MAX,
            itype.spec_pixel_count(self@.len()) <= i64::MAX,
        ensures
            is_divisor_list(list@, itype.spec_pixel_count(self@.len()) as int, 5, 80),
    {
        itype.widths(self.byte_count())
    }

    /// The tile heights from 5 to 50 that divide the number of rows which
    /// the bytes fill at `width`, in rising order.
    pub fn heights(&self, itype: ImageType, width: usize) -> (list: Vec<i64>)
        requires
            width > 0,
            itype.spec_pixel_count(self@.len()) <= usize::MAX,
            itype.spec_pixel_count(self@.len()) <= i64::MAX,
        ensures
            is_divisor_list(
                list@,
                (itype.spec_pixel_count(self@.len()) / width as nat) as int,
                5,
                50,
            ),
    {
        itype.heights(self.byte_count(), width)
    }

    /// Decodes the bytes in the format of `parser` into rows of `width`
    /// pixels. The number of pixels that the bytes hold must fit in
    /// `usize`.
    pub fn parse(&self, parser: ParserType, width: usize) -> (result: Result<Image, DecodeError>)
        requires
            parser.spec_image_type().spec_pixel_count(self@.len()) <= usize::MAX,
        ensures
            match result {
                Ok(image) => parser.decode(self@, width as nat) == Ok::<Seq<Seq<u8>>, DecodeError>(
                    image@,
                ),
                Err(e) => parser.decode(self@, width as nat) == Err::<Seq<Seq<u8>>, DecodeError>(e),
            },
    {
        Image::new(self.0.as_slice(), width, parser)
    }

    /// The image in the packed 4-colour format at each of the widths from
    /// 5 to 80 at which the bytes fill whole rows, in rising order of the
    /// widths.
    pub fn previews(&self) -> (images: Vec<Image>)
        requires
            self@.len() * 4 <= usize::MAX,
            self@.len() * 4 <= i64::MAX,
        ensures
            is_divisor_list(
                divisor_list(self.spec_cga_pixels(), 5, 80),
                self.spec_cga_pixels(),
                5,
                80,
            ),
            images@.len() == divisor_list(self.spec_cga_pixels(), 5, 80).len(),
            forall|i: int|
                0 <= i < images@.len() ==> decode_cga(
                    self@,
                    divisor_list(self.spec_cga_pixels(), 5, 80)[i] as nat,
                ) == Ok::<Seq<Seq<u8>>, DecodeError>(#[trigger] images@[i]@),
            forall|i: int| 0 <= i < images@.len() ==> (#[trigger] images@[i])@.len() > 0,
    {
        let widths: Vec<i64> = self.widths(ImageType::CGA);
        proof {
            lemma_divisor_list(widths@, self.spec_cga_pixels(), 5, 80);
        }
        let mut images: Vec<Image> = Vec::new();
        let mut i: usize = 0;
        while i < widths.len()
            invariant
                i <= widths@.len(),
                self@.len() * 4 <= usize::MAX,
                is_divisor_list(widths@, self.spec_cga_pixels(), 5, 80),
                images@.len() == i,
                forall|j: int|
                    0 <= j < i ==> decode_cga(self@, widths@[j] as nat) == Ok::<
                        Seq<Seq<u8>>,
                        DecodeError,
                    >(#[trigger] images@[j]@),
                forall|j: int| 0 <= j < i ==> (#[trigger] images@[j])@.len() > 0,
            decreases widths@.len() - i,
        {
            let width: i64 = widths[i];
            proof {
                assert(divisor_in(widths@[i as int] as int, self.spec_cga_pixels(), 5, 80));
                lemma_decode_cga_grid(self@, width as nat);
            }
            match Image::new(self.0.as_slice(), width as usize, ParserType::CGA) {
                Ok(image) => {
                    proof {
                        let rows = image@.len() as int;
                        assert(rows > 0) by (nonlinear_arith)
                            requires
                                rows >= 0,
                                rows * width == self@.len() * 4,
                                0 < width < self@.len() * 4,
                        ;
                    }
                    let ghost before = images@;
                    images.push(image);
                    assert forall|j: int| 0 <= j < i + 1 implies (#[trigger] images@[j])@.len()
                        > 0 by {
                        if j < i {
                            assert(images@[j] == before[j]);
                        }
                    }
                },
                Err(_) => {
                    assert(false);
                },
            }
            i += 1;
        }
        images
    }
}

} // verus!
