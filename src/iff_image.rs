//! Interleaved bitmap images in the chunked "FORM ILBM" container: a bitmap
//! header, a color map and a body, optionally run-length compressed.
use vstd::prelude::*;

use crate::byteops::{be_u16, be_u32, copy_bytes, read_u16, read_u32, read_u8};
use crate::colors::{rgb4_from_bytes, Palette, RGB4};
use crate::error::DecodeError;

verus! {

/// Group id `"FORM"`.
pub const FOURCC_FORM: u32 = 0x464F524D;

/// Group type `"ILBM"`.
pub const FOURCC_ILBM: u32 = 0x494C424D;

/// Chunk id `"BMHD"`, the bitmap header.
pub const FOURCC_BMHD: u32 = 0x424D4844;

/// Chunk id `"CMAP"`, the color map.
pub const FOURCC_CMAP: u32 = 0x434D4150;

/// Chunk id `"BODY"`, the pixel data.
pub const FOURCC_BODY: u32 = 0x424F4459;

/// Masking mode in which one palette index is transparent.
pub const MASK_HAS_TRANSPARENCY: u8 = 2;

/// Compression mode of a run-length compressed body.
pub const COMPRESSION_BYTE_RUN1: u8 = 1;

/// A byte read as a signed control value.
pub open spec fn control_value(b: u8) -> int {
    if b < 128 {
        b as int
    } else {
        b as int - 256
    }
}

/// What the run-length units from position `i` of `s` expand to, or `None`
/// where a unit reaches past the end of `s`. A control value `n >= 0` copies
/// the next `n + 1` bytes, `-127 <= n <= -1` repeats the next byte `1 - n`
/// times, and `-128` does nothing.
pub open spec fn unpack_from(s: Seq<u8>, i: int) -> Option<Seq<u8>>
    decreases s.len() - i,
{
    if i < 0 || i >= s.len() {
        Some(Seq::empty())
    } else {
        let n = control_value(s[i]);
        if n >= 0 {
            if i + 2 + n > s.len() {
                None
            } else {
                match unpack_from(s, i + 2 + n) {
                    Some(rest) => Some(s.subrange(i + 1, i + 2 + n) + rest),
                    None => None,
                }
            }
        } else if n >= -127 {
            if i + 2 > s.len() {
                None
            } else {
                match unpack_from(s, i + 2) {
                    Some(rest) => Some(Seq::new((1 - n) as nat, |k: int| s[i + 1]) + rest),
                    None => None,
                }
            }
        } else {
            unpack_from(s, i + 1)
        }
    }
}

/// Expands run-length compressed bytes; every byte of `src` is consumed.
pub fn unpack_byte_run1(src: &Vec<u8>) -> (r: Result<Vec<u8>, DecodeError>)
    ensures
        match unpack_from(src@, 0) {
            Some(t) => r is Ok && r->Ok_0@ == t,
            None => r == Err::<Vec<u8>, DecodeError>(DecodeError::Truncated),
        },
{
    let mut out: Vec<u8> = Vec::new();
    let mut i: usize = 0;
    let slen = src.len();
    while i < src.len()
        invariant
            i <= src@.len(),
            slen == src@.len(),
            match unpack_from(src@, i as int) {
                Some(t) => unpack_from(src@, 0) == Some(out@ + t),
                None => unpack_from(src@, 0) is None,
            },
        decreases src@.len() - i,
    {
        let c = src[i];
        let ghost before = out@;
        if c < 128 {
            let n = c as usize;
            if n + 2 > src.len() - i {
                return Err(DecodeError::Truncated);
            }
            let mut k: usize = 0;
            while k < n + 1
                invariant
                    n < 128,
                    k <= n + 1,
                    slen == src@.len(),
                    i + 2 + n <= src@.len(),
                    out@ == before + src@.subrange(i + 1, i + 1 + k),
                decreases n + 1 - k,
            {
                out.push(src[i + 1 + k]);
                k = k + 1;
                assert(out@ == before + src@.subrange(i + 1, i + 1 + k));
            }
            proof {
                match unpack_from(src@, i + 2 + n) {
                    Some(t) => {
                        assert(before + (src@.subrange(i + 1, i + 2 + n) + t) == out@ + t);
                    },
                    None => {},
                }
            }
            i = i + 2 + n;
        } else if c > 128 {
            if 2 > src.len() - i {
                return Err(DecodeError::Truncated);
            }
            let b = src[i + 1];
            let count = 257 - c as usize;
            let mut k: usize = 0;
            while k < count
                invariant
                    k <= count,
                    out@ == before + Seq::new(k as nat, |j: int| b),
                decreases count - k,
            {
                out.push(b);
                k = k + 1;
                assert(out@ =~= before + Seq::new(k as nat, |j: int| b));
            }
            proof {
                assert(1 - control_value(c) == count);
                match unpack_from(src@, i + 2) {
                    Some(t) => {
                        assert(before + (Seq::new(count as nat, |j: int| src@[i + 1]) + t) =~= out@
                            + t);
                    },
                    None => {},
                }
            }
            i = i + 2;
        } else {
            i = i + 1;
        }
    }
    proof {
        assert(out@ + Seq::<u8>::empty() == out@);
    }
    Ok(out)
}

/// `x` rounded up to an even offset.
pub open spec fn align_even(x: int) -> int {
    if x % 2 == 1 {
        x + 1
    } else {
        x
    }
}

/// What decoding has gathered so far: width, height, plane count, color map,
/// transparent index, pixel bytes, and whether the body is compressed.
pub type ImageState = (int, int, int, Option<Seq<RGB4>>, Option<int>, Seq<u8>, bool);

/// The state before any chunk.
pub open spec fn initial_state() -> ImageState {
    (0, 0, 0, None, None, Seq::empty(), false)
}

/// The state after a bitmap header whose fields start at `b`.
pub open spec fn apply_bmhd(d: Seq<u8>, b: int, st: ImageState) -> Result<ImageState, DecodeError> {
    if b + 11 > d.len() {
        Err(DecodeError::Truncated)
    } else if d[b + 10] > COMPRESSION_BYTE_RUN1 {
        Err(DecodeError::UnsupportedFeature)
    } else {
        let compressed = d[b + 10] == COMPRESSION_BYTE_RUN1;
        if d[b + 9] == MASK_HAS_TRANSPARENCY {
            if b + 14 > d.len() {
                Err(DecodeError::Truncated)
            } else {
                Ok(
                    (
                        be_u16(d, b),
                        be_u16(d, b + 2),
                        d[b + 8] as int,
                        st.3,
                        Some(be_u16(d, b + 12)),
                        st.5,
                        compressed,
                    ),
                )
            }
        } else {
            Ok((be_u16(d, b), be_u16(d, b + 2), d[b + 8] as int, st.3, None, st.5, compressed))
        }
    }
}

/// The colors of a color map of `size` bytes starting at `b`, one per whole triplet.
pub open spec fn cmap_colors(d: Seq<u8>, b: int, size: int) -> Seq<RGB4> {
    Seq::new(
        (size / 3) as nat,
        |k: int| rgb4_from_bytes(d[b + 3 * k], d[b + 3 * k + 1], d[b + 3 * k + 2]),
    )
}

/// The state after one chunk with id `id` and `size` bytes starting at `b`.
pub open spec fn apply_chunk(d: Seq<u8>, id: int, b: int, size: int, st: ImageState) -> Result<
    ImageState,
    DecodeError,
> {
    if id == FOURCC_BMHD {
        apply_bmhd(d, b, st)
    } else if id == FOURCC_CMAP {
        if b + 3 * (size / 3) > d.len() {
            Err(DecodeError::Truncated)
        } else {
            Ok((st.0, st.1, st.2, Some(cmap_colors(d, b, size)), st.4, st.5, st.6))
        }
    } else if id == FOURCC_BODY {
        if b + size > d.len() {
            Err(DecodeError::Truncated)
        } else if st.6 {
            match unpack_from(d.subrange(b, b + size), 0) {
                Some(p) => Ok((st.0, st.1, st.2, st.3, st.4, p, st.6)),
                None => Err(DecodeError::Truncated),
            }
        } else {
            Ok((st.0, st.1, st.2, st.3, st.4, d.subrange(b, b + size), st.6))
        }
    } else {
        Ok(st)
    }
}

/// The state after the chunks from `off` to the end of the input. Each chunk
/// is an id and a length, then its bytes, then a pad byte to an even offset.
pub open spec fn parse_chunks(d: Seq<u8>, off: int, st: ImageState) -> Result<ImageState, DecodeError>
    decreases d.len() - off,
{
    if off < 0 || off >= d.len() {
        Ok(st)
    } else if off + 8 > d.len() {
        Err(DecodeError::Truncated)
    } else {
        let b = off + 8;
        let size = be_u32(d, off + 4);
        match apply_chunk(d, be_u32(d, off), b, size, st) {
            Err(e) => Err(e),
            Ok(st2) => {
                let next = align_even(b + size);
                if next >= d.len() || next <= off {
                    Ok(st2)
                } else {
                    parse_chunks(d, next, st2)
                }
            },
        }
    }
}

/// What an image file decodes to.
pub open spec fn parse_ilbm(d: Seq<u8>) -> Result<ImageState, DecodeError> {
    if d.len() < 4 {
        Err(DecodeError::Truncated)
    } else if be_u32(d, 0) != FOURCC_FORM {
        Err(DecodeError::MalformedHeader)
    } else if d.len() < 12 {
        Err(DecodeError::Truncated)
    } else if be_u32(d, 8) != FOURCC_ILBM {
        Err(DecodeError::MalformedHeader)
    } else {
        parse_chunks(d, 12, initial_state())
    }
}

/// The state held by decoded fields.
pub open spec fn state_of(
    width: usize,
    height: usize,
    bitplanes: usize,
    colormap: Option<Palette>,
    transparent_color: Option<usize>,
    pixels: Seq<u8>,
    compressed: bool,
) -> ImageState {
    (
        width as int,
        height as int,
        bitplanes as int,
        match colormap {
            Some(p) => Some(p.colors@),
            None => None,
        },
        match transparent_color {
            Some(t) => Some(t as int),
            None => None,
        },
        pixels,
        compressed,
    )
}

/// A decoded image: its size, plane count, color map, transparent index,
/// and its body, with the rows of all planes still interleaved.
#[derive(Debug)]
pub struct IffImage {
    pub width: usize,
    pub height: usize,
    pub bitplanes: usize,
    pub colormap: Option<Palette>,
    pub transparent_color: Option<usize>,
    pub pixels: Vec<u8>,
}

/// An image asset: the path of its file, and the image once loaded.
#[derive(Debug)]
pub struct ImageAsset {
    pub path: String,
    pub image: Option<IffImage>,
}

impl IffImage {
    /// The decoded fields, as a decoding state less the compression flag.
    pub open spec fn matches_state(&self, st: ImageState) -> bool {
        let s = state_of(
            self.width,
            self.height,
            self.bitplanes,
            self.colormap,
            self.transparent_color,
            self.pixels@,
            st.6,
        );
        s == st
    }

    /// The fields of a bitmap header starting at `b`: width, height, plane
    /// count, transparent index and whether the body is compressed.
    fn read_bmhd(input_data: &Vec<u8>, b: usize) -> (r: Result<
        (usize, usize, usize, Option<usize>, bool),
        DecodeError,
    >)
        ensures
            match r {
                Ok((w, h, p, t, c)) => forall|st: ImageState|
                    #[trigger] apply_bmhd(input_data@, b as int, st) == Ok::<ImageState, DecodeError>(
                        (
                            w as int,
                            h as int,
                            p as int,
                            st.3,
                            match t {
                                Some(v) => Some(v as int),
                                None => None,
                            },
                            st.5,
                            c,
                        ),
                    ),
                Err(e) => forall|st: ImageState|
                    #[trigger] apply_bmhd(input_data@, b as int, st) == Err::<ImageState, DecodeError>(
                        e,
                    ),
            },
    {
        let ghost d = input_data@;
        let len = input_data.len();
        if len < 11 || b > len - 11 {
            return Err(DecodeError::Truncated);
        }
        let mut h = b;
        let w = read_u16(input_data, &mut h)?;
        let ht = read_u16(input_data, &mut h)?;
        proof {
            crate::byteops::lemma_be_range(d, b as int);
            crate::byteops::lemma_be_range(d, b + 2);
        }
        h = b + 8;
        let planes = read_u8(input_data, &mut h)?;
        let masking = read_u8(input_data, &mut h)?;
        let compression = read_u8(input_data, &mut h)?;
        if compression > COMPRESSION_BYTE_RUN1 {
            return Err(DecodeError::UnsupportedFeature);
        }
        let t = if masking == MASK_HAS_TRANSPARENCY {
            if len - b < 14 {
                return Err(DecodeError::Truncated);
            }
            h = b + 12;
            let t = read_u16(input_data, &mut h)?;
            proof {
                crate::byteops::lemma_be_range(d, b + 12);
            }
            Some(t as usize)
        } else {
            None
        };
        Ok((w as usize, ht as usize, planes as usize, t, compression == COMPRESSION_BYTE_RUN1))
    }

    /// The color map of `size` bytes starting at `b`.
    fn read_cmap(input_data: &Vec<u8>, b: usize, size: usize) -> (r: Result<Palette, DecodeError>)
        requires
            b <= input_data@.len(),
        ensures
            match r {
                Ok(p) => b + 3 * (size / 3) <= input_data@.len() && p.colors@ == cmap_colors(
                    input_data@,
                    b as int,
                    size as int,
                ),
                Err(e) => e == DecodeError::Truncated && b + 3 * (size / 3) > input_data@.len(),
            },
    {
        let ghost d = input_data@;
        let len = input_data.len();
        let n = size / 3;
        if n * 3 > len - b {
            return Err(DecodeError::Truncated);
        }
        let mut colors: Vec<RGB4> = Vec::new();
        let mut k: usize = 0;
        while k < n
            invariant
                d == input_data@,
                len == d.len(),
                n == size / 3,
                k <= n,
                b + 3 * n <= len,
                colors@.len() == k,
                forall|j: int|
                    0 <= j < k ==> #[trigger] colors@[j] == cmap_colors(d, b as int, size as int)[j],
            decreases n - k,
        {
            let at = b + 3 * k;
            let c = RGB4::from((input_data[at], input_data[at + 1], input_data[at + 2]));
            colors.push(c);
            k = k + 1;
        }
        assert(colors@ =~= cmap_colors(d, b as int, size as int));
        Ok(Palette { colors })
    }

    /// The pixel bytes of a body of `size` bytes starting at `b`.
    fn read_body(input_data: &Vec<u8>, b: usize, size: usize, compressed: bool) -> (r: Result<
        Vec<u8>,
        DecodeError,
    >)
        requires
            b <= input_data@.len(),
        ensures
            b + size > input_data@.len() ==> r == Err::<Vec<u8>, DecodeError>(DecodeError::Truncated),
            b + size <= input_data@.len() && !compressed ==> r is Ok && r->Ok_0@
                == input_data@.subrange(b as int, b + size),
            b + size <= input_data@.len() && compressed ==> match unpack_from(
                input_data@.subrange(b as int, b + size),
                0,
            ) {
                Some(p) => r is Ok && r->Ok_0@ == p,
                None => r == Err::<Vec<u8>, DecodeError>(DecodeError::Truncated),
            },
    {
        if size > input_data.len() - b {
            return Err(DecodeError::Truncated);
        }
        let raw = copy_bytes(input_data, b, size);
        if compressed {
            unpack_byte_run1(&raw)
        } else {
            Ok(raw)
        }
    }

    /// Decodes an image file held in `input_data`.
    pub fn load_from_data(input_data: &Vec<u8>) -> (r: Result<IffImage, DecodeError>)
        ensures
            match r {
                Ok(img) => parse_ilbm(input_data@) is Ok && img.matches_state(
                    parse_ilbm(input_data@)->Ok_0,
                ),
                Err(e) => parse_ilbm(input_data@) == Err::<ImageState, DecodeError>(e),
            },
    {
        let ghost d = input_data@;
        let len = input_data.len();
        let mut offset: usize = 0;
        let form_id = read_u32(input_data, &mut offset)?;
        proof {
            crate::byteops::lemma_be_range(d, 0);
        }
        if form_id != FOURCC_FORM {
            return Err(DecodeError::MalformedHeader);
        }
        let _form_size = read_u32(input_data, &mut offset)?;
        let form_type = read_u32(input_data, &mut offset)?;
        proof {
            crate::byteops::lemma_be_range(d, 8);
        }
        if form_type != FOURCC_ILBM {
            return Err(DecodeError::MalformedHeader);
        }
        let mut width: usize = 0;
        let mut height: usize = 0;
        let mut bitplanes: usize = 0;
        let mut colormap: Option<Palette> = None;
        let mut transparent_color: Option<usize> = None;
        let mut pixels: Vec<u8> = Vec::new();
        let mut compressed = false;
        assert(state_of(width, height, bitplanes, colormap, transparent_color, pixels@, compressed)
            =~= initial_state());
        while offset < len
            invariant
                d == input_data@,
                len == d.len(),
                offset >= 12,
                parse_chunks(
                    d,
                    offset as int,
                    state_of(width, height, bitplanes, colormap, transparent_color, pixels@, compressed),
                ) == parse_ilbm(d),
            decreases len - offset,
        {
            let ghost off0 = offset as int;
            let ghost st = state_of(width, height, bitplanes, colormap, transparent_color, pixels@, compressed);
            let chunk_id = read_u32(input_data, &mut offset)?;
            let chunk_size = read_u32(input_data, &mut offset)?;
            proof {
                crate::byteops::lemma_be_range(d, off0);
                crate::byteops::lemma_be_range(d, off0 + 4);
            }
            let b = offset;
            let size = chunk_size as usize;
            if chunk_id == FOURCC_BMHD {
                let (w, ht, planes, t, c) = Self::read_bmhd(input_data, b)?;
                width = w;
                height = ht;
                bitplanes = planes;
                transparent_color = t;
                compressed = c;
            } else if chunk_id == FOURCC_CMAP {
                colormap = Some(Self::read_cmap(input_data, b, size)?);
            } else if chunk_id == FOURCC_BODY {
                pixels = Self::read_body(input_data, b, size, compressed)?;
            }
            let ghost st2 = state_of(width, height, bitplanes, colormap, transparent_color, pixels@, compressed);
            assert(apply_chunk(d, chunk_id as int, b as int, size as int, st) == Ok::<ImageState, DecodeError>(st2));
            if size >= len - b {
                return Ok(IffImage { width, height, bitplanes, colormap, transparent_color, pixels });
            }
            offset = b + size;
            if offset % 2 == 1 {
                offset = offset + 1;
            }
        }
        Ok(IffImage { width, height, bitplanes, colormap, transparent_color, pixels })
    }
}

} // verus!
