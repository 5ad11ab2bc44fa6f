//! Disk fonts: a font payload inside a segment container, decoded into glyph
//! metrics and a one-byte-per-pixel alpha mask.
//!
//! Layout of a payload, by byte offset: 0 a return instruction; 4 and 8 the
//! links of a node; 12 its type, the font type 12; 13 its priority; 14 its
//! name pointer; 18 the payload id `0x0F80`; 20 a revision; 22 a segment
//! pointer; 26 the name, NUL-terminated in a 32-byte field; 58 the embedded
//! font, whose message starts with a node (links, type 12 at 66, priority,
//! name pointer) and goes on with a reply port and a length; then 78 the
//! height; 80 the style; 81 the flags; 82 the width; 84 the baseline; 86 and
//! 88 two unused words; 90 the first and 91 the last character code; 92 the
//! offset of the bitmap; 96 its bytes per row; 98, 102 and 106 the offsets of
//! the location, spacing and kerning tables. Offsets count from the start of
//! the payload.
use vstd::prelude::*;
use vstd::utf8::{decode_utf8, valid_utf8};

use crate::byteops::{be_u16, be_u32, cstr_end, read_string, read_u16, read_u32, read_u8, signed16};
use crate::error::DecodeError;
use crate::hunk::{load_hunk_data, parse_container, HunkData};

verus! {

/// Node type of a font node.
pub const NT_FONT: u8 = 12;

/// Identifies a font payload.
pub const DFH_ID: u16 = 0x0F80;

/// Bit `3 - j` of a nibble: the nibble's pixels run from its high bit down.
pub open spec fn nibble_bit(n: int, j: int) -> bool {
    (n / (if j == 0 {
        8
    } else if j == 1 {
        4
    } else if j == 2 {
        2
    } else {
        1
    })) % 2 == 1
}

/// The four mask bytes of a nibble: `0xFF` for a set bit, `0x00` for a clear one.
pub open spec fn nibble_mask(n: int) -> Seq<u8> {
    Seq::new(4, |j: int| if nibble_bit(n, j) { 0xFFu8 } else { 0x00u8 })
}

/// The eight mask bytes of a byte of one-bit pixels: its high nibble, then its low one.
pub open spec fn expand_byte(b: u8) -> Seq<u8> {
    nibble_mask(b as int / 16) + nibble_mask(b as int % 16)
}

/// The mask bytes of a run of one-bit pixel bytes.
pub open spec fn expand_bytes(s: Seq<u8>) -> Seq<u8>
    decreases s.len(),
{
    if s.len() == 0 {
        Seq::empty()
    } else {
        expand_bytes(s.drop_last()) + expand_byte(s.last())
    }
}

/// The mask bytes of one nibble, from a table of the sixteen patterns.
pub fn expand_nibble(n: u8) -> (r: (u8, u8, u8, u8))
    requires
        n < 16,
    ensures
        seq![r.0, r.1, r.2, r.3] == nibble_mask(n as int),
{
    let r = match n {
        0 => (0x00, 0x00, 0x00, 0x00),
        1 => (0x00, 0x00, 0x00, 0xFF),
        2 => (0x00, 0x00, 0xFF, 0x00),
        3 => (0x00, 0x00, 0xFF, 0xFF),
        4 => (0x00, 0xFF, 0x00, 0x00),
        5 => (0x00, 0xFF, 0x00, 0xFF),
        6 => (0x00, 0xFF, 0xFF, 0x00),
        7 => (0x00, 0xFF, 0xFF, 0xFF),
        8 => (0xFF, 0x00, 0x00, 0x00),
        9 => (0xFF, 0x00, 0x00, 0xFF),
        10 => (0xFF, 0x00, 0xFF, 0x00),
        11 => (0xFF, 0x00, 0xFF, 0xFF),
        12 => (0xFF, 0xFF, 0x00, 0x00),
        13 => (0xFF, 0xFF, 0x00, 0xFF),
        14 => (0xFF, 0xFF, 0xFF, 0x00),
        _ => (0xFF, 0xFF, 0xFF, 0xFF),
    };
    assert(seq![r.0, r.1, r.2, r.3] =~= nibble_mask(n as int));
    r
}

/// The mask bytes of `len` one-bit pixel bytes of `data` from `start`.
pub fn expand_mask(data: &Vec<u8>, start: usize, len: usize) -> (r: Vec<u8>)
    requires
        start + len <= data@.len(),
    ensures
        r@ == expand_bytes(data@.subrange(start as int, start + len)),
{
    let mut out: Vec<u8> = Vec::new();
    let mut i: usize = 0;
    let dlen = data.len();
    while i < len
        invariant
            dlen == data@.len(),
            i <= len,
            start + len <= data@.len(),
            out@ == expand_bytes(data@.subrange(start as int, start + i)),
        decreases len - i,
    {
        let b = data[start + i];
        let hi = expand_nibble(b / 16);
        let lo = expand_nibble(b % 16);
        out.push(hi.0);
        out.push(hi.1);
        out.push(hi.2);
        out.push(hi.3);
        out.push(lo.0);
        out.push(lo.1);
        out.push(lo.2);
        out.push(lo.3);
        proof {
            let s = data@.subrange(start as int, start + i + 1);
            assert(s.drop_last() =~= data@.subrange(start as int, start + i));
            assert(s.last() == b);
        }
        i = i + 1;
        assert(out@ =~= expand_bytes(data@.subrange(start as int, start + i)));
    }
    out
}

/// Where the name of a font payload ends: its NUL byte.
pub open spec fn name_end(d: Seq<u8>) -> int {
    choose|e: int| cstr_end(d, 26, e)
}

/// Offset of the bitmap of a font payload.
pub open spec fn mask_offset(d: Seq<u8>) -> int {
    be_u32(d, 92)
}

/// Bytes of the bitmap of a font payload: rows times bytes per row.
pub open spec fn mask_len(d: Seq<u8>) -> int {
    be_u16(d, 78) * be_u16(d, 96)
}

/// Number of glyphs of a font payload.
pub open spec fn glyph_count(d: Seq<u8>) -> int {
    d[91] - d[90] + 1
}

/// The bitmap and the glyph tables lie within the payload. A spacing or
/// kerning table at offset zero is absent.
pub open spec fn tables_fit(d: Seq<u8>) -> bool {
    &&& mask_offset(d) + mask_len(d) <= d.len()
    &&& be_u32(d, 98) + 4 * glyph_count(d) <= d.len()
    &&& be_u32(d, 102) == 0 || be_u32(d, 102) + 2 * glyph_count(d) <= d.len()
    &&& be_u32(d, 106) == 0 || be_u32(d, 106) + 2 * glyph_count(d) <= d.len()
}

/// The first failure of a font payload in reading order, if any: the node
/// type of the font node and of the embedded font, the payload id, the name,
/// the character range, and the extent of the bitmap and of the tables.
pub open spec fn payload_error(d: Seq<u8>) -> Option<DecodeError> {
    if d.len() < 13 {
        Some(DecodeError::Truncated)
    } else if d[12] != NT_FONT {
        Some(DecodeError::MalformedHeader)
    } else if d.len() < 20 {
        Some(DecodeError::Truncated)
    } else if be_u16(d, 18) != DFH_ID {
        Some(DecodeError::MalformedHeader)
    } else if d.len() < 26 {
        Some(DecodeError::Truncated)
    } else if !exists|e: int| cstr_end(d, 26, e) {
        Some(DecodeError::Truncated)
    } else if !valid_utf8(d.subrange(26, name_end(d))) {
        Some(DecodeError::MalformedHeader)
    } else if d.len() < 67 {
        Some(DecodeError::Truncated)
    } else if d[66] != NT_FONT {
        Some(DecodeError::MalformedHeader)
    } else if d.len() < 110 {
        Some(DecodeError::Truncated)
    } else if d[91] < d[90] {
        Some(DecodeError::MalformedHeader)
    } else if !tables_fit(d) {
        Some(DecodeError::Truncated)
    } else {
        None
    }
}

/// A signed table of `n` 16-bit entries at `off`, or no table where `off` is zero.
pub open spec fn signed_table(d: Seq<u8>, off: int, n: int) -> Seq<isize> {
    if off == 0 {
        Seq::empty()
    } else {
        Seq::new(n as nat, |i: int| signed16(be_u16(d, off + 2 * i)) as isize)
    }
}

/// The glyph locations: bit offset and bit width of each glyph.
pub open spec fn loc_table(d: Seq<u8>, off: int, n: int) -> Seq<(usize, usize)> {
    Seq::new(n as nat, |i: int| (be_u16(d, off + 4 * i) as usize, be_u16(d, off + 4 * i + 2) as usize))
}

/// A font of one size.
#[derive(Debug, Clone)]
pub struct DiskFont {
    /// The name of the font.
    pub name: String,
    /// Pixels high.
    pub y_size: usize,
    /// Pixels wide, the advance of a monospace font.
    pub x_size: usize,
    pub style: u8,
    pub flags: u8,
    /// Pixels from the top to the baseline.
    pub baseline: usize,
    /// The first character code of the font.
    pub lo_char: u8,
    /// The last character code of the font.
    pub hi_char: u8,
    /// The alpha mask of all glyphs side by side: one byte per pixel.
    pub char_data: Vec<u8>,
    /// Bytes per row of `char_data`.
    pub modulo: usize,
    /// Bit offset and bit width of each glyph in a row.
    pub char_loc: Vec<(usize, usize)>,
    /// Advance of each glyph; empty for a monospace font.
    pub char_space: Vec<isize>,
    /// Kerning of each glyph; empty for a monospace font.
    pub char_kern: Vec<isize>,
}

impl DiskFont {
    /// This font is what the payload `d` describes, named `fallback` where the
    /// payload names it not.
    pub open spec fn decoded_from(&self, d: Seq<u8>, fallback: Seq<char>) -> bool {
        &&& self.name@ == if name_end(d) == 26 {
            fallback
        } else {
            decode_utf8(d.subrange(26, name_end(d)))
        }
        &&& self.y_size == be_u16(d, 78)
        &&& self.style == d[80]
        &&& self.flags == d[81]
        &&& self.x_size == be_u16(d, 82)
        &&& self.baseline == be_u16(d, 84)
        &&& self.lo_char == d[90]
        &&& self.hi_char == d[91]
        &&& self.char_data@ == expand_bytes(
            d.subrange(mask_offset(d), mask_offset(d) + mask_len(d)),
        )
        &&& self.modulo == be_u16(d, 96) * 8
        &&& self.char_loc@ == loc_table(d, be_u32(d, 98), glyph_count(d))
        &&& self.char_space@ == signed_table(d, be_u32(d, 102), glyph_count(d))
        &&& self.char_kern@ == signed_table(d, be_u32(d, 106), glyph_count(d))
    }

    /// Whether the font has per-glyph advances.
    pub fn is_proportional(&self) -> (r: bool)
        ensures
            r == (self.char_space@.len() > 0),
    {
        self.char_space.len() > 0
    }

    /// The font of a container that holds exactly one payload segment; the
    /// name falls back to `fallback_name` where the payload holds none.
    pub fn from_container(container: &HunkData, fallback_name: &String) -> (r: Result<
        DiskFont,
        DecodeError,
    >)
        ensures
            container.hunks@.len() != 1 ==> r == Err::<DiskFont, DecodeError>(
                DecodeError::UnsupportedFeature,
            ),
            container.hunks@.len() == 1 ==> match payload_error(container.hunks@[0].data@) {
                Some(e) => r == Err::<DiskFont, DecodeError>(e),
                None => r is Ok && r->Ok_0.decoded_from(container.hunks@[0].data@, fallback_name@),
            },
    {
        if container.hunks.len() != 1 {
            return Err(DecodeError::UnsupportedFeature);
        }
        let data = &container.hunks[0].data;
        let ghost d = data@;
        let len = data.len();
        if len < 13 {
            return Err(DecodeError::Truncated);
        }
        if data[12] != NT_FONT {
            return Err(DecodeError::MalformedHeader);
        }
        if len < 20 {
            return Err(DecodeError::Truncated);
        }
        let mut o: usize = 18;
        let file_id = read_u16(data, &mut o)?;
        proof {
            crate::byteops::lemma_be_range(d, 18);
        }
        if file_id != DFH_ID {
            return Err(DecodeError::MalformedHeader);
        }
        if len < 26 {
            return Err(DecodeError::Truncated);
        }
        o = 26;
        let embedded = read_string(data, &mut o);
        let embedded = match embedded {
            Ok(s) => s,
            Err(err) => {
                proof {
                    if exists|e: int| cstr_end(d, 26, e) {
                        let e = choose|e: int| cstr_end(d, 26, e);
                        assert(cstr_end(d, 26, e));
                    }
                }
                return Err(err);
            },
        };
        proof {
            let e = choose|e: int| cstr_end(d, 26, e);
            assert(cstr_end(d, 26, o as int));
            if e < o {
                assert(d[e] != 0);
            } else if e > o {
                assert(d[o as int] != 0);
            }
            assert(name_end(d) == o);
        }
        let name = if o == 26 {
            fallback_name.clone()
        } else {
            embedded
        };
        if len < 67 {
            return Err(DecodeError::Truncated);
        }
        if data[66] != NT_FONT {
            return Err(DecodeError::MalformedHeader);
        }
        if len < 110 {
            return Err(DecodeError::Truncated);
        }
        o = 78;
        let y_size = read_u16(data, &mut o)?;
        let style = read_u8(data, &mut o)?;
        let flags = read_u8(data, &mut o)?;
        let x_size = read_u16(data, &mut o)?;
        let baseline = read_u16(data, &mut o)?;
        o = 90;
        let lo_char = read_u8(data, &mut o)?;
        let hi_char = read_u8(data, &mut o)?;
        let font_data_offset = read_u32(data, &mut o)?;
        let modulo = read_u16(data, &mut o)?;
        let loc_offset = read_u32(data, &mut o)?;
        let space_offset = read_u32(data, &mut o)?;
        let kern_offset = read_u32(data, &mut o)?;
        proof {
            crate::byteops::lemma_be_range(d, 78);
            crate::byteops::lemma_be_range(d, 82);
            crate::byteops::lemma_be_range(d, 84);
            crate::byteops::lemma_be_range(d, 92);
            crate::byteops::lemma_be_range(d, 96);
            crate::byteops::lemma_be_range(d, 98);
            crate::byteops::lemma_be_range(d, 102);
            crate::byteops::lemma_be_range(d, 106);
        }
        if hi_char < lo_char {
            return Err(DecodeError::MalformedHeader);
        }
        let start = font_data_offset as usize;
        let rows = y_size as usize;
        let row_bytes = modulo as usize;
        assert(0 <= rows * row_bytes <= 0xFFFF * 0xFFFF) by (nonlinear_arith)
            requires
                rows <= 0xFFFF,
                row_bytes <= 0xFFFF,
        ;
        if start > len || (rows as u64) * (row_bytes as u64) > (len - start) as u64 {
            return Err(DecodeError::Truncated);
        }
        let mask_bytes = rows * row_bytes;
        let char_data = expand_mask(data, start, mask_bytes);
        let count = (hi_char - lo_char) as usize + 1;
        let (char_loc, char_space, char_kern) = Self::glyph_tables(
            data,
            count,
            loc_offset as usize,
            space_offset as usize,
            kern_offset as usize,
        )?;
        Ok(DiskFont {
            name,
            y_size: rows,
            x_size: x_size as usize,
            style,
            flags,
            baseline: baseline as usize,
            lo_char,
            hi_char,
            char_data,
            modulo: row_bytes * 8,
            char_loc,
            char_space,
            char_kern,
        })
    }

    /// The glyph location, spacing and kerning tables of `count` glyphs.
    fn glyph_tables(data: &Vec<u8>, count: usize, loc: usize, space: usize, kern: usize) -> (r:
        Result<(Vec<(usize, usize)>, Vec<isize>, Vec<isize>), DecodeError>)
        requires
            count <= 256,
        ensures
            match r {
                Ok((l, s, k)) => {
                    &&& loc + 4 * count <= data@.len()
                    &&& (space == 0 || space + 2 * count <= data@.len())
                    &&& (kern == 0 || kern + 2 * count <= data@.len())
                    &&& l@ == loc_table(data@, loc as int, count as int)
                    &&& s@ == signed_table(data@, space as int, count as int)
                    &&& k@ == signed_table(data@, kern as int, count as int)
                },
                Err(e) => e == DecodeError::Truncated && !(loc + 4 * count <= data@.len() && (space
                    == 0 || space + 2 * count <= data@.len()) && (kern == 0 || kern + 2 * count
                    <= data@.len())),
            },
    {
        let len = data.len();
        if loc > len || 4 * count > len - loc {
            return Err(DecodeError::Truncated);
        }
        if space != 0 && (space > len || 2 * count > len - space) {
            return Err(DecodeError::Truncated);
        }
        if kern != 0 && (kern > len || 2 * count > len - kern) {
            return Err(DecodeError::Truncated);
        }
        let mut char_loc: Vec<(usize, usize)> = Vec::new();
        let mut char_space: Vec<isize> = Vec::new();
        let mut char_kern: Vec<isize> = Vec::new();
        let mut i: usize = 0;
        while i < count
            invariant
                len == data@.len(),
                i <= count,
                loc + 4 * count <= len,
                space == 0 || space + 2 * count <= len,
                kern == 0 || kern + 2 * count <= len,
                char_loc@ =~= loc_table(data@, loc as int, i as int),
                char_space@ =~= signed_table(data@, space as int, i as int),
                char_kern@ =~= signed_table(data@, kern as int, i as int),
            decreases count - i,
        {
            let mut o = loc + 4 * i;
            let off = read_u16(data, &mut o)?;
            let width = read_u16(data, &mut o)?;
            proof {
                crate::byteops::lemma_be_range(data@, loc + 4 * i);
                crate::byteops::lemma_be_range(data@, loc + 4 * i + 2);
            }
            char_loc.push((off as usize, width as usize));
            if space != 0 {
                let mut o = space + 2 * i;
                let v = crate::byteops::read_i16(data, &mut o)?;
                char_space.push(v as isize);
            }
            if kern != 0 {
                let mut o = kern + 2 * i;
                let v = crate::byteops::read_i16(data, &mut o)?;
                char_kern.push(v as isize);
            }
            i = i + 1;
        }
        Ok((char_loc, char_space, char_kern))
    }
}

/// Why a font file does not decode, if it does not: the container, the
/// number of its segments, or the payload.
pub open spec fn font_file_error(b: Seq<u8>) -> Option<DecodeError> {
    match parse_container(b) {
        Err(e) => Some(e),
        Ok(c) => if c.4.len() != 1 {
            Some(DecodeError::UnsupportedFeature)
        } else {
            payload_error(c.4[0].1)
        },
    }
}

/// The font payload of a font file: the bytes of its one segment.
pub open spec fn font_file_payload(b: Seq<u8>) -> Seq<u8> {
    parse_container(b)->Ok_0.4[0].1
}

/// Decodes the font file held in `file_data`: a container whose one payload
/// segment is a font. The name falls back to `fallback_name`.
pub fn load_font(file_data: &Vec<u8>, fallback_name: &String) -> (r: Result<DiskFont, DecodeError>)
    ensures
        match font_file_error(file_data@) {
            Some(e) => r == Err::<DiskFont, DecodeError>(e),
            None => r is Ok && r->Ok_0.decoded_from(font_file_payload(file_data@), fallback_name@),
        },
{
    let container = load_hunk_data(file_data)?;
    assert(container.segments().len() == container.hunks@.len());
    if container.hunks.len() == 1 {
        assert(container.segments()[0].1 == container.hunks@[0].data@);
    }
    DiskFont::from_container(&container, fallback_name)
}

/// A decoded font has one glyph location per character code from `lo_char`
/// to `hi_char`, and a spacing or kerning table whose offset is zero is
/// empty, while one that is present has an entry per glyph.
pub proof fn lemma_glyph_tables(f: DiskFont, d: Seq<u8>, fallback: Seq<char>)
    requires
        payload_error(d) is None,
        f.decoded_from(d, fallback),
    ensures
        f.char_loc@.len() == f.hi_char - f.lo_char + 1,
        be_u32(d, 102) == 0 ==> f.char_space@.len() == 0,
        be_u32(d, 106) == 0 ==> f.char_kern@.len() == 0,
        be_u32(d, 102) != 0 ==> f.char_space@.len() == f.char_loc@.len(),
        be_u32(d, 106) != 0 ==> f.char_kern@.len() == f.char_loc@.len(),
{
}

} // verus!
