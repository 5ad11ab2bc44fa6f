//! Reduced-precision colors and palettes.
use vstd::arithmetic::power2::{lemma_pow2_unfold, pow2};
use vstd::prelude::*;

use crate::error::DecodeError;

verus! {

/// A color with four bits per channel, packed as `0x0RGB`.
#[derive(Debug, Clone, Copy, PartialEq, Eq, Structural)]
pub struct RGB4 {
    pub color: u16,
}

/// Widens a 4-bit channel to 8 bits by repeating it in both nibbles (`0xA` becomes `0xAA`).
pub open spec fn widen_nibble(n: int) -> int {
    n * 17
}

impl RGB4 {
    /// The red nibble.
    pub open spec fn red4(self) -> int {
        (self.color as int / 256) % 16
    }

    /// The green nibble.
    pub open spec fn green4(self) -> int {
        (self.color as int / 16) % 16
    }

    /// The blue nibble.
    pub open spec fn blue4(self) -> int {
        self.color as int % 16
    }

    /// The 8-bit red channel.
    pub fn r(&self) -> (r: u8)
        ensures
            r as int == widen_nibble(self.red4()),
    {
        let rc = (self.color / 256) % 16;
        (rc * 17) as u8
    }

    /// The 8-bit green channel.
    pub fn g(&self) -> (g: u8)
        ensures
            g as int == widen_nibble(self.green4()),
    {
        let gc = (self.color / 16) % 16;
        (gc * 17) as u8
    }

    /// The 8-bit blue channel.
    pub fn b(&self) -> (b: u8)
        ensures
            b as int == widen_nibble(self.blue4()),
    {
        let bc = self.color % 16;
        (bc * 17) as u8
    }
}

/// The packed RGBA32 value of a color: red in the top byte, then green, blue,
/// and an opaque alpha.
pub open spec fn rgba32_of(c: RGB4) -> int {
    widen_nibble(c.red4()) * 0x100_0000 + widen_nibble(c.green4()) * 0x1_0000 + widen_nibble(
        c.blue4(),
    ) * 0x100 + 0xFF
}

/// Keeps the low twelve bits of a raw value.
impl From<u16> for RGB4 {
    fn from(c: u16) -> (r: RGB4) {
        RGB4 { color: c % 4096 }
    }
}

impl vstd::std_specs::convert::FromSpecImpl<u16> for RGB4 {
    open spec fn obeys_from_spec() -> bool {
        true
    }

    open spec fn from_spec(c: u16) -> RGB4 {
        RGB4 { color: (c % 4096) as u16 }
    }
}

/// The color made of the high nibble of each 8-bit channel.
pub open spec fn rgb4_from_bytes(r: u8, g: u8, b: u8) -> RGB4 {
    RGB4 { color: ((r / 16) as int * 256 + (g / 16) as int * 16 + (b / 16) as int) as u16 }
}

/// Keeps the high nibble of each 8-bit channel.
impl From<(u8, u8, u8)> for RGB4 {
    fn from(c: (u8, u8, u8)) -> (r: RGB4) {
        RGB4 { color: ((c.0 / 16) as u16) * 256 + ((c.1 / 16) as u16) * 16 + (c.2 / 16) as u16 }
    }
}

impl vstd::std_specs::convert::FromSpecImpl<(u8, u8, u8)> for RGB4 {
    open spec fn obeys_from_spec() -> bool {
        true
    }

    open spec fn from_spec(c: (u8, u8, u8)) -> RGB4 {
        rgb4_from_bytes(c.0, c.1, c.2)
    }
}

/// An ordered color table.
#[derive(Debug)]
pub struct Palette {
    pub colors: Vec<RGB4>,
}

/// Entry `i` of the RGBA32 lookup table of a palette: the color's packed
/// value, or fully transparent past the end of the palette.
pub open spec fn table_entry(colors: Seq<RGB4>, i: int) -> int {
    if i < colors.len() {
        rgba32_of(colors[i])
    } else {
        0
    }
}

impl Palette {
    /// The color at `index`, if the palette has one there.
    pub fn get_color(&self, index: usize) -> (r: Option<&RGB4>)
        ensures
            index < self.colors.len() ==> r == Some(&self.colors@[index as int]),
            index >= self.colors.len() ==> r is None,
    {
        if index < self.colors.len() {
            Some(&self.colors[index])
        } else {
            None
        }
    }

    /// The lookup table from palette index to RGBA32 color for a bitmap of
    /// `depth` planes: exactly `2^depth` entries.
    pub fn to_rgba32_table(&self, depth: usize) -> (r: Result<Vec<u32>, DecodeError>)
        ensures
            !(1 <= depth <= 5) ==> r == Err::<Vec<u32>, DecodeError>(DecodeError::InvalidDimension),
            1 <= depth <= 5 ==> r is Ok,
            r matches Ok(t) ==> {
                &&& t@.len() == pow2(depth as nat)
                &&& forall|i: int|
                    0 <= i < t@.len() ==> #[trigger] t@[i] as int == table_entry(self.colors@, i)
            },
    {
        if depth < 1 || depth > 5 {
            return Err(DecodeError::InvalidDimension);
        }
        let mut size: usize = 1;
        let mut k: usize = 0;
        proof {
            vstd::arithmetic::power2::lemma2_to64();
        }
        while k < depth
            invariant
                k <= depth <= 5,
                size == pow2(k as nat),
                size <= 32,
            decreases depth - k,
        {
            proof {
                lemma_pow2_unfold((k + 1) as nat);
                vstd::arithmetic::power2::lemma2_to64();
                if k == 0 {} else if k == 1 {} else if k == 2 {} else if k == 3 {} else {}
            }
            size = size * 2;
            k = k + 1;
        }
        let mut table: Vec<u32> = Vec::with_capacity(size);
        let color_count = self.colors.len();
        let mut i: usize = 0;
        while i < size
            invariant
                i <= size,
                color_count == self.colors.len(),
                table@.len() == i,
                forall|j: int| 0 <= j < i ==> #[trigger] table@[j] as int == table_entry(self.colors@, j),
            decreases size - i,
        {
            if i < color_count {
                let c = &self.colors[i];
                let color: u32 = (c.r() as u32) * 0x100_0000 + (c.g() as u32) * 0x1_0000 + (c.b() as u32)
                    * 0x100 + 0xFF;
                table.push(color);
            } else {
                table.push(0);
            }
            i = i + 1;
        }
        Ok(table)
    }
}

} // verus!
