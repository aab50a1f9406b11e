//! Images that hold a colour per pixel, written at 24 bits per pixel.

use vstd::prelude::*;
use crate::error::DecodeError;
use crate::image::{pixels_of, Image, Size};
use crate::palette::{Palette, Rgb, Rgba};
use crate::rle::tiles;
use crate::tga::{encode_rgb, file24, HEADER_LEN};

verus! {

/// The colours without alpha that `palette` gives to `indices`.
pub open spec fn rgbs_of(indices: Seq<u8>, palette: Seq<Rgba>) -> Seq<Rgb> {
    Seq::new(
        indices.len(),
        |k: int|
            Rgb {
                r: palette[indices[k] as int].r,
                g: palette[indices[k] as int].g,
                b: palette[indices[k] as int].b,
            },
    )
}

/// A rectangle of colours, row after row from the top.
#[derive(Debug)]
pub struct RgbImage {
    size: Size,
    data: Vec<Rgb>,
}

/// An image as the contracts see it: its size and its colours, row after
/// row from the top.
pub struct RgbImageView {
    pub size: Size,
    pub colors: Seq<Rgb>,
}

impl RgbImageView {
    /// An image holds exactly one colour for each pixel of its size.
    pub open spec fn wf(self) -> bool {
        self.colors.len() == self.size.area()
    }
}

impl View for RgbImage {
    type V = RgbImageView;

    closed spec fn view(&self) -> RgbImageView {
        RgbImageView { size: self.size, colors: self.data@ }
    }
}

impl Clone for RgbImage {
    fn clone(&self) -> (copy: RgbImage)
        ensures
            copy@ == self@,
    {
        proof {
            use_type_invariant(self);
        }
        let data = self.data.clone();
        proof {
            assert(data@ =~= self.data@);
        }
        RgbImage { size: self.size, data }
    }
}

impl RgbImage {
    /// An image holds exactly one colour for each pixel of its size. This
    /// holds of every image.
    pub open spec fn wf(&self) -> bool {
        self@.wf()
    }

    #[verifier::type_invariant]
    spec fn well_formed(&self) -> bool {
        self.wf()
    }

    /// An image of `size` over `data`, which must hold one colour per pixel.
    pub fn new(size: Size, data: Vec<Rgb>) -> (res: Result<RgbImage, DecodeError>)
        ensures
            match res {
                Ok(image) => {
                    &&& data@.len() == size.area()
                    &&& image.wf()
                    &&& image@ == (RgbImageView { size, colors: data@ })
                },
                Err(e) => e == DecodeError::InvalidInput && data@.len() != size.area(),
            },
    {
        let len = data.len();
        match size.checked_count() {
            Some(n) => {
                if n == len {
                    Ok(RgbImage { size, data })
                } else {
                    Err(DecodeError::InvalidInput)
                }
            },
            None => Err(DecodeError::InvalidInput),
        }
    }

    /// The size of the image.
    pub fn size(&self) -> (size: Size)
        ensures
            size == self@.size,
    {
        self.size
    }

    /// The colours, row after row from the top: one for each pixel.
    pub fn data(&self) -> (data: &[Rgb])
        ensures
            self.wf(),
            data@ == self@.colors,
    {
        proof {
            use_type_invariant(self);
        }
        self.data.as_slice()
    }

    /// Decodes one tile of `size` from a run-length stream of (count,
    /// palette index) pairs, straight into the colours of `palette`.
    ///
    /// A size whose pixel count does not fit in memory is invalid input; a
    /// stream that ends before the tile is full is truncated.
    pub fn load_ob5(bytes: &[u8], size: Size, palette: &Palette) -> (res: Result<
        RgbImage,
        DecodeError,
    >)
        ensures
            match res {
                Ok(image) => {
                    &&& size.area() <= usize::MAX
                    &&& image.wf()
                    &&& tiles(bytes@, size.area(), 1) matches Some(decoded)
                    &&& image@ == (RgbImageView { size, colors: rgbs_of(decoded[0], palette@) })
                },
                Err(e) => if size.area() > usize::MAX {
                    e == DecodeError::InvalidInput
                } else {
                    e == DecodeError::TruncatedInput && tiles(bytes@, size.area(), 1) is None
                },
            },
    {
        let images = match Image::load_ob5(bytes, size, 1) {
            Ok(images) => images,
            Err(e) => {
                return Err(e);
            },
        };
        let indices = images[0].index();
        let n = indices.len();
        let mut data: Vec<Rgb> = Vec::with_capacity(n);
        let mut k: usize = 0;
        while k < n
            invariant
                k <= n,
                n == indices@.len(),
                data@.len() == k,
                forall|i: int| 0 <= i < k ==> data@[i] == rgbs_of(indices@, palette@)[i],
            decreases n - k,
        {
            data.push(palette.get(indices[k]).rgb());
            k += 1;
        }
        proof {
            assert(data@ =~= rgbs_of(indices@, palette@));
            assert(images@[0].wf());
            assert(pixels_of(images@)[0] == images@[0]@.pixels);
        }
        Ok(RgbImage { size, data })
    }

    /// The image as a file of 24 bits per pixel, the bottom row first.
    pub fn save_tga(&self) -> (out: Vec<u8>)
        requires
            HEADER_LEN + 3 * self@.size.area() <= usize::MAX,
        ensures
            out@ == file24(self@.size, self@.colors),
    {
        proof {
            use_type_invariant(self);
        }
        encode_rgb(self.size, self.data.as_slice())
    }
}

} // verus!
