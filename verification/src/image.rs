//! Palette-indexed images and the decoders of the two sprite-sheet formats.

use vstd::prelude::*;
use crate::compositor::{in_tile, joinable, joined, placed_at, source_at, total_width};
use crate::compositor::{
    lemma_joined_places, lemma_placed_in_row, lemma_placement_covers, lemma_width_skip_le,
    lemma_width_split, lemma_width_tail_le,
};
use crate::error::DecodeError;
use crate::hit_map::{classify, kind_of, kinds_of, HitMap};
use crate::palette::{Palette, Rgba};
use crate::rle::{run, tile, tiles, raw_tiles};
use crate::tga::{encode_rgba, file32, HEADER_LEN};

verus! {

/// Width and height of an image, in pixels.
#[derive(Clone, Copy, Debug, PartialEq, Eq, Structural)]
pub struct Size {
    pub width: u32,
    pub height: u32,
}

impl Size {
    /// A size of `width` by `height` pixels.
    pub fn new(width: u32, height: u32) -> (size: Size)
        ensures
            size == (Size { width, height }),
    {
        Size { width, height }
    }

    /// The number of pixels of an image of this size.
    pub open spec fn area(&self) -> nat {
        (self.width * self.height) as nat
    }

    /// The number of pixels of an image of this size, where it fits in `usize`.
    pub fn checked_count(&self) -> (count: Option<usize>)
        ensures
            match count {
                Some(n) => n == self.area(),
                None => self.area() > usize::MAX,
            },
    {
        assert(self.width * self.height <= u64::MAX) by (nonlinear_arith)
            requires
                self.width <= u32::MAX,
                self.height <= u32::MAX,
        ;
        let wide: u64 = (self.width as u64) * (self.height as u64);
        if wide <= usize::MAX as u64 {
            Some(wide as usize)
        } else {
            None
        }
    }

    /// The number of pixels of an image of this size.
    pub fn count(&self) -> (count: usize)
        requires
            self.area() <= usize::MAX,
        ensures
            count == self.area(),
    {
        match self.checked_count() {
            Some(n) => n,
            None => 0,
        }
    }
}

/// A rectangle of palette indices, row after row from the top.
#[derive(Debug)]
pub struct Image {
    size: Size,
    index: Vec<u8>,
}

/// An image as the contracts see it: its size and its palette indices, row
/// after row from the top.
pub struct ImageView {
    pub size: Size,
    pub pixels: Seq<u8>,
}

impl ImageView {
    /// An image holds exactly one index for each pixel of its size.
    pub open spec fn wf(self) -> bool {
        self.pixels.len() == self.size.area()
    }
}

impl View for Image {
    type V = ImageView;

    closed spec fn view(&self) -> ImageView {
        ImageView { size: self.size, pixels: self.index@ }
    }
}

/// The colours that `palette` gives to `indices`.
pub open spec fn colors_of(indices: Seq<u8>, palette: Seq<Rgba>) -> Seq<Rgba> {
    Seq::new(indices.len(), |k: int| palette[indices[k] as int])
}

/// The images of a sequence as the contracts see them.
pub open spec fn views(images: Seq<Image>) -> Seq<ImageView> {
    Seq::new(images.len(), |i: int| images[i]@)
}

/// The palette indices of each image of a sequence.
pub open spec fn pixels_of(images: Seq<Image>) -> Seq<Seq<u8>> {
    Seq::new(images.len(), |i: int| images[i]@.pixels)
}

/// Images of one size over the given rows of palette indices.
pub open spec fn sized(rows: Seq<Seq<u8>>, size: Size) -> Seq<ImageView> {
    Seq::new(rows.len(), |i: int| ImageView { size, pixels: rows[i] })
}

impl Clone for Image {
    fn clone(&self) -> (copy: Image)
        ensures
            copy@ == self@,
    {
        proof {
            use_type_invariant(self);
        }
        let index = self.index.clone();
        proof {
            assert(index@ =~= self.index@);
        }
        Image { size: self.size, index }
    }
}

impl Image {
    /// An image holds exactly one index for each pixel of its size. This
    /// holds of every image.
    pub open spec fn wf(&self) -> bool {
        self@.wf()
    }

    #[verifier::type_invariant]
    spec fn well_formed(&self) -> bool {
        self.wf()
    }

    /// An image of `size` over `index`, which must hold one index per pixel.
    pub fn new(size: Size, index: Vec<u8>) -> (res: Result<Image, DecodeError>)
        ensures
            match res {
                Ok(image) => {
                    &&& index@.len() == size.area()
                    &&& image.wf()
                    &&& image@ == (ImageView { size, pixels: index@ })
                },
                Err(e) => e == DecodeError::InvalidInput && index@.len() != size.area(),
            },
    {
        let len = index.len();
        match size.checked_count() {
            Some(n) => {
                if n == len {
                    Ok(Image { size, index })
                } else {
                    Err(DecodeError::InvalidInput)
                }
            },
            None => Err(DecodeError::InvalidInput),
        }
    }

    /// The size of the image.
    pub fn size(&self) -> (size: Size)
        ensures
            size == self@.size,
    {
        self.size
    }

    /// The palette indices, row after row from the top: one for each pixel.
    pub fn index(&self) -> (index: &[u8])
        ensures
            self.wf(),
            index@ == self@.pixels,
    {
        proof {
            use_type_invariant(self);
        }
        self.index.as_slice()
    }

    /// The colour of each pixel, row after row from the top.
    pub fn colors(&self, palette: &Palette) -> (colors: Vec<Rgba>)
        ensures
            colors@ == colors_of(self@.pixels, palette@),
    {
        let n = self.index.len();
        let mut colors: Vec<Rgba> = Vec::with_capacity(n);
        let mut k: usize = 0;
        while k < n
            invariant
                k <= n,
                n == self@.pixels.len(),
                colors@.len() == k,
                forall|i: int| 0 <= i < k ==> colors@[i] == palette@[self@.pixels[i] as int],
            decreases n - k,
        {
            colors.push(palette.get(self.index[k]));
            k += 1;
        }
        proof {
            assert(colors@ =~= colors_of(self@.pixels, palette@));
        }
        colors
    }

    /// The image as a file of 32 bits per pixel: each pixel in the colour
    /// that `palette` gives to its index, the bottom row first.
    pub fn save_tga(&self, palette: &Palette) -> (out: Vec<u8>)
        requires
            HEADER_LEN + 4 * self@.size.area() <= usize::MAX,
        ensures
            out@ == file32(self@.size, colors_of(self@.pixels, palette@)),
    {
        proof {
            use_type_invariant(self);
        }
        let colors = self.colors(palette);
        encode_rgba(self.size, colors.as_slice())
    }

    /// The hit map of the image: the classification of each pixel, in rows
    /// as wide as the image.
    pub fn hit_map(&self) -> (hit_map: HitMap)
        ensures
            hit_map@ == kinds_of(self@.pixels),
            hit_map.spec_width() == self@.size.width,
    {
        let n = self.index.len();
        let mut map: Vec<u8> = Vec::with_capacity(n);
        let mut k: usize = 0;
        while k < n
            invariant
                k <= n,
                n == self@.pixels.len(),
                map@.len() == k,
                forall|i: int| 0 <= i < k ==> map@[i] == kind_of(self@.pixels[i]),
            decreases n - k,
        {
            map.push(classify(self.index[k]));
            k += 1;
        }
        proof {
            assert(map@ =~= kinds_of(self@.pixels));
        }
        HitMap::new(map, self.size.width as usize)
    }

    /// Decodes `image_count` tiles of `size` from a run-length stream of
    /// (count, palette index) pairs.
    ///
    /// A size whose pixel count does not fit in memory is invalid input. The
    /// stream is truncated where it ends before the last tile is full; bytes
    /// after the last tile are ignored. A run that crosses the end of a tile
    /// is cut there.
    pub fn load_ob5(bytes: &[u8], size: Size, image_count: usize) -> (res: Result<
        Vec<Image>,
        DecodeError,
    >)
        ensures
            match res {
                Ok(images) => {
                    &&& size.area() <= usize::MAX
                    &&& tiles(bytes@, size.area(), image_count as nat) == Some(pixels_of(images@))
                    &&& images@.len() == image_count
                    &&& forall|i: int|
                        0 <= i < images@.len() ==> (#[trigger] images@[i]).wf()
                            && images@[i]@.size == size
                },
                Err(e) => if size.area() > usize::MAX {
                    e == DecodeError::InvalidInput
                } else {
                    e == DecodeError::TruncatedInput && tiles(
                        bytes@,
                        size.area(),
                        image_count as nat,
                    ) is None
                },
            },
    {
        let need = match size.checked_count() {
            Some(n) => n,
            None => {
                return Err(DecodeError::InvalidInput);
            },
        };
        let mut result: Vec<Image> = Vec::new();
        let mut pos: usize = 0;
        let mut done: usize = 0;
        proof {
            assert(bytes@.skip(0) =~= bytes@);
            assert(pixels_of(result@) =~= Seq::<Seq<u8>>::empty());
            lemma_prepend_nothing(tiles(bytes@, need as nat, image_count as nat));
        }
        while done < image_count
            invariant
                done <= image_count,
                pos <= bytes@.len(),
                need == size.area(),
                result@.len() == done,
                forall|i: int|
                    0 <= i < result@.len() ==> (#[trigger] result@[i]).wf()
                        && result@[i]@.size == size,
                tiles(bytes@, need as nat, image_count as nat) == prepend(
                    pixels_of(result@),
                    tiles(bytes@.skip(pos as int), need as nat, (image_count - done) as nat),
                ),
            decreases image_count - done,
        {
            let ghost before = result@;
            match read_tile(bytes, pos, need) {
                Ok((index, end)) => {
                    proof {
                        let read = (end - pos) as nat;
                        assert(bytes@.skip(pos as int).skip(read as int) =~= bytes@.skip(
                            end as int,
                        ));
                    }
                    let image = Image { size, index };
                    result.push(image);
                    proof {
                        assert(pixels_of(result@) =~= pixels_of(before) + seq![image@.pixels]);
                        lemma_prepend_step(
                            pixels_of(before),
                            image@.pixels,
                            tiles(
                                bytes@.skip(end as int),
                                need as nat,
                                (image_count - done - 1) as nat,
                            ),
                        );
                    }
                    pos = end;
                    done += 1;
                },
                Err(e) => {
                    return Err(DecodeError::TruncatedInput);
                },
            }
        }
        proof {
            assert(pixels_of(result@) + Seq::<Seq<u8>>::empty() =~= pixels_of(result@));
        }
        Ok(result)
    }

    /// Decodes `image_count` tiles of `size` from a stream that holds one
    /// palette index per pixel.
    ///
    /// A size whose pixel count does not fit in memory is invalid input. The
    /// stream is truncated where it holds fewer bytes than the tiles have
    /// pixels; bytes after the last tile are ignored.
    pub fn load_art(bytes: &[u8], size: Size, image_count: usize) -> (res: Result<
        Vec<Image>,
        DecodeError,
    >)
        ensures
            match res {
                Ok(images) => {
                    &&& size.area() <= usize::MAX
                    &&& raw_tiles(bytes@, size.area(), image_count as nat) == Some(
                        pixels_of(images@),
                    )
                    &&& images@.len() == image_count
                    &&& forall|i: int|
                        0 <= i < images@.len() ==> (#[trigger] images@[i]).wf()
                            && images@[i]@.size == size
                },
                Err(e) => if size.area() > usize::MAX {
                    e == DecodeError::InvalidInput
                } else {
                    e == DecodeError::TruncatedInput && raw_tiles(
                        bytes@,
                        size.area(),
                        image_count as nat,
                    ) is None
                },
            },
    {
        let need = match size.checked_count() {
            Some(n) => n,
            None => {
                return Err(DecodeError::InvalidInput);
            },
        };
        let mut result: Vec<Image> = Vec::new();
        let mut pos: usize = 0;
        let mut done: usize = 0;
        while done < image_count
            invariant
                done <= image_count,
                pos <= bytes@.len(),
                pos == done * need,
                need == size.area(),
                result@.len() == done,
                forall|i: int|
                    0 <= i < result@.len() ==> (#[trigger] result@[i]).wf()
                        && result@[i]@.size == size,
                forall|i: int|
                    0 <= i < result@.len() ==> (#[trigger] result@[i])@.pixels == bytes@.subrange(
                        i * need,
                        (i + 1) * need,
                    ),
            decreases image_count - done,
        {
            if bytes.len() - pos < need {
                proof {
                    assert((done + 1) * need <= image_count * need) by (nonlinear_arith)
                        requires
                            done + 1 <= image_count,
                    ;
                    assert((done + 1) * need == done * need + need) by (nonlinear_arith);
                    assert(need * image_count == image_count * need) by (nonlinear_arith);
                }
                return Err(DecodeError::TruncatedInput);
            }
            let mut index: Vec<u8> = Vec::with_capacity(need);
            let mut k: usize = 0;
            while k < need
                invariant
                    k <= need,
                    pos + need <= bytes@.len() <= usize::MAX,
                    index@ == bytes@.subrange(pos as int, pos + k),
                decreases need - k,
            {
                index.push(bytes[pos + k]);
                k += 1;
                proof {
                    assert(index@ =~= bytes@.subrange(pos as int, pos + k));
                }
            }
            proof {
                assert((done + 1) * need == done * need + need) by (nonlinear_arith);
            }
            result.push(Image { size, index });
            pos += need;
            done += 1;
        }
        proof {
            assert(need * image_count == image_count * need) by (nonlinear_arith);
            assert(pixels_of(result@) =~= Seq::new(
                image_count as nat,
                |i: int| bytes@.subrange(i * need, (i + 1) * need),
            ));
        }
        Ok(result)
    }
}

impl Image {
    /// Joins tiles of one height side by side into one image.
    ///
    /// The joined image is as wide as all tiles together. Tiles are placed
    /// from right to left: the first tile takes the rightmost columns, the
    /// last tile the leftmost. Rows keep their order. Tiles that cannot be
    /// joined are invalid input.
    pub fn join_horizontal(images: &[Image]) -> (res: Result<Image, DecodeError>)
        ensures
            match res {
                Ok(out) => {
                    &&& joinable(views(images@))
                    &&& out.wf()
                    &&& out@ == joined(views(images@))
                    &&& out@.size.width == total_width(views(images@))
                    &&& out@.size.height == images@[0]@.size.height
                },
                Err(e) => e == DecodeError::InvalidInput && !joinable(views(images@)),
            },
    {
        let ghost tiles = views(images@);
        let n = images.len();
        if n == 0 {
            return Err(DecodeError::InvalidInput);
        }
        let height = images[0].size.height;
        let mut total: u64 = 0;
        let mut j: usize = n;
        proof {
            assert(tiles.skip(n as int) =~= Seq::<ImageView>::empty());
        }
        while j > 0
            invariant
                j <= n,
                n == images@.len(),
                tiles == views(images@),
                height == tiles[0].size.height,
                total == total_width(tiles.skip(j as int)),
                total <= u32::MAX,
                forall|i: int| j <= i < n ==> (#[trigger] tiles[i]).size.height == height,
            decreases j,
        {
            j -= 1;
            if images[j].size.height != height {
                proof {
                    assert(tiles[j as int].size.height != tiles[0].size.height);
                }
                return Err(DecodeError::InvalidInput);
            }
            proof {
                lemma_width_split(tiles, j as int);
                lemma_width_skip_le(tiles, j as int);
            }
            total = total + images[j].size.width as u64;
            if total > u32::MAX as u64 {
                return Err(DecodeError::InvalidInput);
            }
        }
        proof {
            assert(tiles.skip(0) =~= tiles);
        }
        let size = Size { width: total as u32, height };
        let count = match size.checked_count() {
            Some(c) => c,
            None => {
                return Err(DecodeError::InvalidInput);
            },
        };
        let mut index: Vec<u8> = Vec::with_capacity(count);
        let mut row: u32 = 0;
        while row < height
            invariant
                row <= height,
                n == images@.len(),
                n > 0,
                tiles == views(images@),
                height == tiles[0].size.height,
                total == total_width(tiles),
                total * height <= usize::MAX,
                forall|i: int| 0 <= i < n ==> (#[trigger] tiles[i]).size.height == height,
                index@.len() == row * total,
                forall|i: int, r: int, c: int|
                    0 <= i < n && 0 <= r < row && 0 <= c < tiles[i].size.width
                        ==> index@[#[trigger] placed_at(tiles, i, r, c)] == source_at(
                        tiles,
                        i,
                        r,
                        c,
                    ),
            decreases height - row,
        {
            let mut j: usize = n;
            proof {
                assert(tiles.skip(n as int) =~= Seq::<ImageView>::empty());
            }
            while j > 0
                invariant
                    j <= n,
                    row < height,
                    n == images@.len(),
                    tiles == views(images@),
                    height == tiles[0].size.height,
                    total == total_width(tiles),
                    total * height <= usize::MAX,
                    forall|i: int| 0 <= i < n ==> (#[trigger] tiles[i]).size.height == height,
                    index@.len() == row * total + total_width(tiles.skip(j as int)),
                    forall|i: int, r: int, c: int|
                        0 <= i < n && 0 <= r < row && 0 <= c < tiles[i].size.width
                            ==> index@[#[trigger] placed_at(tiles, i, r, c)] == source_at(
                            tiles,
                            i,
                            r,
                            c,
                        ),
                    forall|i: int, c: int|
                        j <= i < n && 0 <= c < tiles[i].size.width ==> index@[#[trigger] placed_at(
                            tiles,
                            i,
                            row as int,
                            c,
                        )] == source_at(tiles, i, row as int, c),
                decreases j,
            {
                j -= 1;
                let image = &images[j];
                let width = image.size.width as usize;
                let len = image.index.len();
                let ghost before = index@;
                proof {
                    use_type_invariant(image);
                    lemma_width_split(tiles, j as int);
                    lemma_width_skip_le(tiles, j as int);
                    assert(tiles[j as int].size.height == height);
                    lemma_row_in_image(image@.size, row as int);
                }
                let base = (row as usize) * width;
                let mut col: usize = 0;
                while col < width
                    invariant
                        col <= width,
                        width == image@.size.width,
                        base == row * width,
                        base + width <= image@.pixels.len() <= usize::MAX,
                        index@ == before + image@.pixels.subrange(base as int, base + col),
                    decreases width - col,
                {
                    index.push(image.index[base + col]);
                    col += 1;
                    proof {
                        assert(index@ =~= before + image@.pixels.subrange(
                            base as int,
                            base + col,
                        ));
                    }
                }
                proof {
                    let piece = image@.pixels.subrange(base as int, base + width);
                    assert(index@ == before + piece);
                    assert forall|i: int, r: int, c: int|
                        0 <= i < n && 0 <= r < row && 0 <= c < tiles[i].size.width
                        implies index@[#[trigger] placed_at(tiles, i, r, c)] == source_at(
                        tiles,
                        i,
                        r,
                        c,
                    ) by {
                        lemma_placed_in_row(tiles, i, r, c);
                        lemma_rows_before(r, row as int, total as int);
                        assert(before[placed_at(tiles, i, r, c)] == source_at(tiles, i, r, c));
                    }
                    assert forall|i: int, c: int|
                        j <= i < n && 0 <= c < tiles[i].size.width
                        implies index@[#[trigger] placed_at(tiles, i, row as int, c)]
                        == source_at(tiles, i, row as int, c) by {
                        if i == j {
                            assert(placed_at(tiles, i, row as int, c) == before.len() + c);
                            assert(piece[c] == image@.pixels[base + c]);
                        } else {
                            lemma_width_split(tiles, i);
                            lemma_width_tail_le(tiles, j as int + 1, i);
                            assert(before[placed_at(tiles, i, row as int, c)] == source_at(
                                tiles,
                                i,
                                row as int,
                                c,
                            ));
                        }
                    }
                }
            }
            proof {
                assert(tiles.skip(0) =~= tiles);
                assert((row + 1) * total == row * total + total) by (nonlinear_arith);
            }
            row += 1;
        }
        proof {
            assert(height * total == total * height) by (nonlinear_arith);
            let whole = joined(tiles);
            assert(whole.size == size);
            assert forall|place: int| 0 <= place < index@.len() implies index@[place]
                == whole.pixels[place] by {
                lemma_placement_covers(tiles, height as int, place);
                let (i, r, c) = choose|i: int, r: int, c: int|
                    in_tile(tiles, height as int, i, r, c) && #[trigger] placed_at(tiles, i, r, c)
                        == place;
                lemma_joined_places(tiles, i, r, c);
            }
            assert(index@ =~= whole.pixels);
        }
        Ok(Image { size, index })
    }
}

/// Row `row` of an image of `size` lies inside its pixels.
proof fn lemma_row_in_image(size: Size, row: int)
    requires
        0 <= row < size.height,
    ensures
        0 <= row * size.width,
        row * size.width + size.width <= size.area(),
{
    let w = size.width as int;
    let h = size.height as int;
    assert(0 <= row * w && row * w + w <= w * h) by (nonlinear_arith)
        requires
            0 <= row < h,
            0 <= w,
    ;
}

/// Whole rows before row `later` end before it starts.
proof fn lemma_rows_before(row: int, later: int, total: int)
    requires
        0 <= row < later,
        0 <= total,
    ensures
        (row + 1) * total <= later * total,
{
    assert((row + 1) * total <= later * total) by (nonlinear_arith)
        requires
            0 <= row < later,
            0 <= total,
    ;
}

/// The pixels `prefix`, read from the first `before` bytes of a stream, put
/// before the rest of the tile that is read after them.
spec fn continued(prefix: Seq<u8>, before: nat, later: Option<(Seq<u8>, nat)>) -> Option<
    (Seq<u8>, nat),
> {
    match later {
        Some((rest, read)) => Some((prefix + rest, before + read)),
        None => None,
    }
}

/// The tiles `done` put before the tiles that are read after them.
spec fn prepend(done: Seq<Seq<u8>>, later: Option<Seq<Seq<u8>>>) -> Option<Seq<Seq<u8>>> {
    match later {
        Some(rest) => Some(done + rest),
        None => None,
    }
}

proof fn lemma_prepend_nothing(later: Option<Seq<Seq<u8>>>)
    ensures
        prepend(Seq::empty(), later) == later,
{
    match later {
        Some(rest) => {
            assert(Seq::<Seq<u8>>::empty() + rest =~= rest);
        },
        None => {},
    }
}

proof fn lemma_prepend_step(done: Seq<Seq<u8>>, first: Seq<u8>, later: Option<Seq<Seq<u8>>>)
    ensures
        prepend(done + seq![first], later) == prepend(
            done,
            match later {
                Some(rest) => Some(seq![first] + rest),
                None => None,
            },
        ),
{
    match later {
        Some(rest) => {
            assert((done + seq![first]) + rest =~= done + (seq![first] + rest));
        },
        None => {},
    }
}

proof fn lemma_continued_step(
    prefix: Seq<u8>,
    before: nat,
    piece: Seq<u8>,
    later: Option<(Seq<u8>, nat)>,
)
    ensures
        continued(prefix + piece, before + 2, later) == continued(
            prefix,
            before,
            match later {
                Some((rest, read)) => Some((piece + rest, read + 2)),
                None => None,
            },
        ),
{
    match later {
        Some((rest, read)) => {
            assert((prefix + piece) + rest =~= prefix + (piece + rest));
        },
        None => {},
    }
}

/// Reads one tile of `need` pixels from the run-length stream `bytes`,
/// starting at byte `start`. Returns the pixels and the position of the
/// first byte after the pairs that were read.
fn read_tile(bytes: &[u8], start: usize, need: usize) -> (res: Result<
    (Vec<u8>, usize),
    DecodeError,
>)
    requires
        start <= bytes@.len(),
    ensures
        match res {
            Ok((pixels, end)) => {
                &&& start <= end <= bytes@.len()
                &&& pixels@.len() == need
                &&& tile(bytes@.skip(start as int), need as nat) == Some(
                    (pixels@, (end - start) as nat),
                )
            },
            Err(e) => e == DecodeError::TruncatedInput && tile(
                bytes@.skip(start as int),
                need as nat,
            ) is None,
        },
{
    let mut pixels: Vec<u8> = Vec::new();
    let mut pos: usize = start;
    proof {
        let whole = tile(bytes@.skip(start as int), need as nat);
        match whole {
            Some((rest, read)) => {
                assert(Seq::<u8>::empty() + rest =~= rest);
            },
            None => {},
        }
    }
    while pixels.len() < need
        invariant
            start <= pos <= bytes@.len(),
            pixels@.len() <= need,
            tile(bytes@.skip(start as int), need as nat) == continued(
                pixels@,
                (pos - start) as nat,
                tile(bytes@.skip(pos as int), (need - pixels@.len()) as nat),
            ),
        decreases bytes@.len() - pos,
    {
        if bytes.len() - pos < 2 {
            return Err(DecodeError::TruncatedInput);
        }
        let count = bytes[pos];
        let value = bytes[pos + 1];
        let room = need - pixels.len();
        let used: usize = if (count as usize) < room {
            count as usize
        } else {
            room
        };
        let ghost before = pixels@;
        let mut k: usize = 0;
        proof {
            assert(before + run(0, value) =~= before);
        }
        while k < used
            invariant
                k <= used,
                pixels@ == before + run(k as nat, value),
            decreases used - k,
        {
            pixels.push(value);
            k += 1;
            proof {
                assert(pixels@ =~= before + run(k as nat, value));
            }
        }
        proof {
            let here = bytes@.skip(pos as int);
            assert(here[0] == count);
            assert(here[1] == value);
            assert(here.skip(2) =~= bytes@.skip(pos + 2));
            lemma_continued_step(
                before,
                (pos - start) as nat,
                run(used as nat, value),
                tile(bytes@.skip(pos + 2), (room - used) as nat),
            );
        }
        pos += 2;
    }
    proof {
        assert(pixels@ + Seq::<u8>::empty() =~= pixels@);
    }
    Ok((pixels, pos))
}

} // verus!
