//! Colours and the 256-entry palette table.

use vstd::prelude::*;
use crate::error::DecodeError;

verus! {

/// Number of entries of a palette.
pub const PALETTE_SIZE: usize = 256;

/// Number of bytes of a palette resource: three per entry.
pub const PALETTE_BYTES: usize = 768;

/// A colour without transparency.
#[derive(Clone, Copy, Debug, PartialEq, Eq, Structural)]
pub struct Rgb {
    pub r: u8,
    pub g: u8,
    pub b: u8,
}

impl Rgb {
    /// Black: all three channels zero.
    pub fn black() -> (c: Rgb)
        ensures
            c == (Rgb { r: 0, g: 0, b: 0 }),
    {
        Rgb { r: 0, g: 0, b: 0 }
    }

    /// Overwrites the three channels.
    pub fn set(&mut self, r: u8, g: u8, b: u8)
        ensures
            *final(self) == (Rgb { r, g, b }),
    {
        self.r = r;
        self.g = g;
        self.b = b;
    }
}

/// A colour with an alpha channel: 0 is fully transparent, 255 fully opaque.
#[derive(Clone, Copy, Debug, PartialEq, Eq, Structural)]
pub struct Rgba {
    pub r: u8,
    pub g: u8,
    pub b: u8,
    pub a: u8,
}

impl Rgba {
    /// The colour without its alpha channel.
    pub fn rgb(&self) -> (c: Rgb)
        ensures
            c == (Rgb { r: self.r, g: self.g, b: self.b }),
    {
        Rgb { r: self.r, g: self.g, b: self.b }
    }
}

/// The alpha that entry `index` carries in a palette whose transparent entry
/// is `transparent`.
pub open spec fn alpha_of(index: int, transparent: u8) -> u8 {
    if index == transparent as int {
        0u8
    } else {
        255u8
    }
}

/// Entry `index` of the palette that a resource `bytes` describes: the three
/// bytes at `3 * index` are red, green and blue.
pub open spec fn entry_of(bytes: Seq<u8>, index: int, transparent: u8) -> Rgba {
    Rgba {
        r: bytes[3 * index],
        g: bytes[3 * index + 1],
        b: bytes[3 * index + 2],
        a: alpha_of(index, transparent),
    }
}

/// The entries of the palette that a resource `bytes` describes.
pub open spec fn entries_of(bytes: Seq<u8>, transparent: u8) -> Seq<Rgba> {
    Seq::new(PALETTE_SIZE as nat, |i: int| entry_of(bytes, i, transparent))
}

/// Maps each 8-bit colour index to a colour. One index is transparent.
#[derive(Debug)]
pub struct Palette {
    data: Vec<Rgba>,
    transparent: u8,
}

impl View for Palette {
    type V = Seq<Rgba>;

    closed spec fn view(&self) -> Seq<Rgba> {
        self.data@
    }
}

impl Clone for Palette {
    fn clone(&self) -> (copy: Palette)
        ensures
            copy@ == self@,
            copy.spec_transparent_index() == self.spec_transparent_index(),
    {
        proof {
            use_type_invariant(self);
        }
        let data = self.data.clone();
        proof {
            assert(data@ =~= self.data@);
        }
        Palette { data, transparent: self.transparent }
    }
}

impl Palette {
    /// The index whose entry is transparent.
    pub closed spec fn spec_transparent_index(&self) -> u8 {
        self.transparent
    }

    /// A palette has exactly 256 entries; the transparent entry has alpha 0
    /// and every other entry alpha 255.
    pub open spec fn wf(&self) -> bool {
        &&& self@.len() == PALETTE_SIZE
        &&& forall|i: int|
            0 <= i < PALETTE_SIZE ==> (#[trigger] self@[i]).a == alpha_of(
                i,
                self.spec_transparent_index(),
            )
    }

    #[verifier::type_invariant]
    spec fn well_formed(&self) -> bool {
        self.wf()
    }

    /// Builds the palette from a resource of at least 768 bytes. Bytes past
    /// the first 768 are ignored; a shorter resource is truncated input.
    pub fn load(bytes: &[u8], transparent_index: u8) -> (res: Result<Palette, DecodeError>)
        ensures
            match res {
                Ok(p) => {
                    &&& bytes@.len() >= PALETTE_BYTES
                    &&& p.wf()
                    &&& p.spec_transparent_index() == transparent_index
                    &&& p@ == entries_of(bytes@, transparent_index)
                },
                Err(e) => e == DecodeError::TruncatedInput && bytes@.len() < PALETTE_BYTES,
            },
    {
        if bytes.len() < PALETTE_BYTES {
            return Err(DecodeError::TruncatedInput);
        }
        let mut data: Vec<Rgba> = Vec::with_capacity(PALETTE_SIZE);
        let mut color_index: usize = 0;
        while color_index < PALETTE_SIZE
            invariant
                color_index <= PALETTE_SIZE,
                bytes@.len() >= PALETTE_BYTES,
                data@.len() == color_index,
                forall|i: int|
                    0 <= i < color_index ==> #[trigger] data@[i] == entry_of(
                        bytes@,
                        i,
                        transparent_index,
                    ),
            decreases PALETTE_SIZE - color_index,
        {
            let alpha: u8 = if color_index == transparent_index as usize {
                0
            } else {
                255
            };
            data.push(
                Rgba {
                    r: bytes[3 * color_index],
                    g: bytes[3 * color_index + 1],
                    b: bytes[3 * color_index + 2],
                    a: alpha,
                },
            );
            color_index += 1;
        }
        proof {
            assert(data@ =~= entries_of(bytes@, transparent_index));
            assert forall|i: int| 0 <= i < PALETTE_SIZE implies (#[trigger] data@[i]).a
                == alpha_of(i, transparent_index) by {
                assert(data@[i] == entry_of(bytes@, i, transparent_index));
            }
        }
        Ok(Palette { data, transparent: transparent_index })
    }

    /// The colour of `index`. Defined for every 8-bit index; its alpha is 0
    /// for the transparent index and 255 for every other.
    pub fn get(&self, index: u8) -> (c: Rgba)
        ensures
            self.wf(),
            c == self@[index as int],
            c.a == alpha_of(index as int, self.spec_transparent_index()),
    {
        proof {
            use_type_invariant(self);
        }
        self.data[index as usize]
    }

    /// The index whose entry is transparent.
    pub fn transparent_index(&self) -> (index: u8)
        ensures
            index == self.spec_transparent_index(),
    {
        self.transparent
    }
}

} // verus!
