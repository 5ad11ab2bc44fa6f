use faery::byteops::{read_i16, read_i32, read_string, read_u16, read_u32, read_u8};
use faery::error::DecodeError;
use faery::font::{expand_nibble, load_font, DiskFont};
use faery::hunk::load_hunk_data;
use faery::iff_image::{unpack_byte_run1, IffImage};

fn be32(v: u32) -> [u8; 4] {
    v.to_be_bytes()
}

fn push32(out: &mut Vec<u8>, v: u32) {
    out.extend_from_slice(&be32(v));
}

fn push16(out: &mut Vec<u8>, v: u16) {
    out.extend_from_slice(&v.to_be_bytes());
}

/// A container with one data segment holding `payload` (padded to whole words).
fn container_with(payload: &[u8]) -> Vec<u8> {
    let mut p = payload.to_vec();
    while p.len() % 4 != 0 {
        p.push(0);
    }
    let words = (p.len() / 4) as u32;
    let mut out = Vec::new();
    push32(&mut out, 0x03F3);
    push32(&mut out, 0);
    push32(&mut out, 1); // table size
    push32(&mut out, 0); // first
    push32(&mut out, 0); // last
    push32(&mut out, words | 0x4000_0000); // size with a flag bit
    push32(&mut out, 0x03EA);
    push32(&mut out, words);
    out.extend_from_slice(&p);
    // a relocation run against segment 0, offset 0
    push32(&mut out, 0x03EC);
    push32(&mut out, 1);
    push32(&mut out, 0);
    push32(&mut out, 0);
    push32(&mut out, 0);
    push32(&mut out, 0x03F2);
    out
}

#[test]
fn byte_reads_are_big_endian_and_checked() {
    let data = vec![0x12, 0x34, 0xFF, 0xFE, 0x80, 0x00, 0x00, 0x01];
    let mut off = 0usize;
    assert_eq!(read_u16(&data, &mut off), Ok(0x1234));
    assert_eq!(read_i16(&data, &mut off), Ok(-2));
    assert_eq!(read_u8(&data, &mut off), Ok(0x80));
    assert_eq!(off, 5);
    let mut off = 4usize;
    assert_eq!(read_i32(&data, &mut off), Ok(i32::MIN + 1));
    let mut off = 0usize;
    assert_eq!(read_u32(&data, &mut off), Ok(0x1234FFFE));
    let mut off = 6usize;
    assert_eq!(read_u32(&data, &mut off), Err(DecodeError::Truncated));
    assert_eq!(off, 6);
}

#[test]
fn read_string_stops_at_nul() {
    let data = b"abc\0def".to_vec();
    let mut off = 0usize;
    assert_eq!(read_string(&data, &mut off).unwrap(), "abc");
    assert_eq!(off, 3);
    let mut off = 4usize;
    assert_eq!(read_string(&data, &mut off), Err(DecodeError::Truncated));
    let bad = vec![0xFF, 0x00];
    let mut off = 0usize;
    assert_eq!(read_string(&bad, &mut off), Err(DecodeError::MalformedHeader));
}

#[test]
fn hunk_file_loads_segments() {
    let file = container_with(&[1, 2, 3, 4, 5, 6, 7, 8]);
    let h = load_hunk_data(&file).unwrap();
    assert_eq!(h.header.table_size, 1);
    assert_eq!(h.header.hunk_sizes, vec![8]);
    assert_eq!(h.hunks.len(), 1);
    assert_eq!(h.hunks[0].hunk_id, 0x03EA);
    assert_eq!(h.hunks[0].hunk_size, 8);
    assert_eq!(h.hunks[0].data, vec![1, 2, 3, 4, 5, 6, 7, 8]);
}

#[test]
fn hunk_file_bad_magic_or_reserved_is_malformed() {
    let mut file = container_with(&[0; 4]);
    file[3] = 0xF4;
    assert_eq!(load_hunk_data(&file).unwrap_err(), DecodeError::MalformedHeader);
    let mut file = container_with(&[0; 4]);
    file[7] = 1;
    assert_eq!(load_hunk_data(&file).unwrap_err(), DecodeError::MalformedHeader);
}

#[test]
fn hunk_file_errors() {
    // size that disagrees with the table
    let mut file = container_with(&[0; 8]);
    file[31] = 3;
    assert_eq!(load_hunk_data(&file).unwrap_err(), DecodeError::MalformedHeader);
    // unknown block tag
    let mut file = container_with(&[0; 4]);
    let n = file.len();
    file[n - 1] = 0xF0;
    assert_eq!(load_hunk_data(&file).unwrap_err(), DecodeError::UnsupportedFeature);
    // cut before the end tag
    let file = container_with(&[0; 4]);
    assert_eq!(load_hunk_data(&file[..file.len() - 4].to_vec()).unwrap_err(), DecodeError::Truncated);
    // relocation into a missing segment
    let mut file = container_with(&[0; 4]);
    let n = file.len();
    file[n - 12 - 1] = 5;
    assert_eq!(load_hunk_data(&file).unwrap_err(), DecodeError::MalformedHeader);
}

#[test]
fn run_length_decode() {
    let src = vec![0x02, 0xAA, 0xBB, 0xCC, 0xFE, 0x11, 0x00, 0x99];
    assert_eq!(
        unpack_byte_run1(&src).unwrap(),
        vec![0xAA, 0xBB, 0xCC, 0x11, 0x11, 0x11, 0x99]
    );
    assert_eq!(unpack_byte_run1(&vec![0x80, 0x00, 0x42]).unwrap(), vec![0x42]);
    assert_eq!(unpack_byte_run1(&vec![0x03, 0x01]), Err(DecodeError::Truncated));
    assert_eq!(unpack_byte_run1(&vec![0xFF]), Err(DecodeError::Truncated));
}

fn ilbm(compression: u8, masking: u8, body: &[u8]) -> Vec<u8> {
    let mut chunks = Vec::new();
    chunks.extend_from_slice(b"BMHD");
    push32(&mut chunks, 20);
    push16(&mut chunks, 16); // width
    push16(&mut chunks, 2); // height
    push32(&mut chunks, 0); // position
    chunks.push(1); // planes
    chunks.push(masking);
    chunks.push(compression);
    chunks.push(0);
    push16(&mut chunks, 3); // transparent color
    chunks.extend_from_slice(&[0; 6]);
    chunks.extend_from_slice(b"CMAP");
    push32(&mut chunks, 6);
    chunks.extend_from_slice(&[0xAB, 0xCD, 0xEF, 0x10, 0x20, 0x30]);
    chunks.extend_from_slice(b"JUNK");
    push32(&mut chunks, 3);
    chunks.extend_from_slice(&[9, 9, 9, 0]); // odd length and its pad byte
    chunks.extend_from_slice(b"BODY");
    push32(&mut chunks, body.len() as u32);
    chunks.extend_from_slice(body);
    let mut out = Vec::new();
    out.extend_from_slice(b"FORM");
    push32(&mut out, (chunks.len() + 4) as u32);
    out.extend_from_slice(b"ILBM");
    out.extend_from_slice(&chunks);
    out
}

#[test]
fn ilbm_uncompressed() {
    let img = IffImage::load_from_data(&ilbm(0, 2, &[1, 2, 3, 4])).unwrap();
    assert_eq!((img.width, img.height, img.bitplanes), (16, 2, 1));
    assert_eq!(img.transparent_color, Some(3));
    let cmap = img.colormap.unwrap();
    assert_eq!(cmap.colors.len(), 2);
    assert_eq!(cmap.colors[0].color, 0x0ACE);
    assert_eq!(cmap.colors[1].color, 0x0123);
    assert_eq!(img.pixels, vec![1, 2, 3, 4]);
}

#[test]
fn ilbm_compressed() {
    let img = IffImage::load_from_data(&ilbm(1, 0, &[0xFD, 0x07, 0x00, 0x09])).unwrap();
    assert_eq!(img.transparent_color, None);
    assert_eq!(img.pixels, vec![7, 7, 7, 7, 9]);
}

#[test]
fn ilbm_errors() {
    assert_eq!(
        IffImage::load_from_data(&ilbm(2, 0, &[0])).unwrap_err(),
        DecodeError::UnsupportedFeature
    );
    let mut bad = ilbm(0, 0, &[0]);
    bad[0] = b'X';
    assert_eq!(IffImage::load_from_data(&bad).unwrap_err(), DecodeError::MalformedHeader);
    let mut bad = ilbm(0, 0, &[0]);
    bad[8] = b'X';
    assert_eq!(IffImage::load_from_data(&bad).unwrap_err(), DecodeError::MalformedHeader);
    let mut cut = ilbm(0, 0, &[1, 2, 3, 4]);
    cut.truncate(cut.len() - 1);
    assert_eq!(IffImage::load_from_data(&cut).unwrap_err(), DecodeError::Truncated);
}

/// A font payload of two glyphs ('A' and 'B'), one row of two bytes.
fn font_payload(name: &str, with_space: bool) -> Vec<u8> {
    let mut p = vec![0u8; 110];
    p[0..4].copy_from_slice(&be32(0x70FF4E75));
    p[12] = 12;
    p[18..20].copy_from_slice(&0x0F80u16.to_be_bytes());
    p[26..26 + name.len()].copy_from_slice(name.as_bytes());
    p[66] = 12;
    p[78..80].copy_from_slice(&1u16.to_be_bytes()); // y size
    p[80] = 2; // style
    p[81] = 0x40; // flags
    p[82..84].copy_from_slice(&8u16.to_be_bytes()); // x size
    p[84..86].copy_from_slice(&1u16.to_be_bytes()); // baseline
    p[90] = b'A';
    p[91] = b'B';
    p[92..96].copy_from_slice(&be32(110)); // bitmap
    p[96..98].copy_from_slice(&2u16.to_be_bytes()); // modulo
    p[98..102].copy_from_slice(&be32(112)); // locations
    if with_space {
        p[102..106].copy_from_slice(&be32(120)); // spacing
    }
    p.extend_from_slice(&[0xA5, 0x0F]); // bitmap at 110
    for v in [0u16, 8, 8, 5] {
        p.extend_from_slice(&v.to_be_bytes()); // locations at 112
    }
    for v in [9i16, -3] {
        p.extend_from_slice(&v.to_be_bytes()); // spacing at 120
    }
    p
}

#[test]
fn font_payload_decodes() {
    let file = container_with(&font_payload("amber.font", true));
    let f: DiskFont = load_font(&file, &"fallback".to_string()).unwrap();
    assert_eq!(f.name, "amber.font");
    assert_eq!((f.y_size, f.x_size, f.baseline), (1, 8, 1));
    assert_eq!((f.style, f.flags), (2, 0x40));
    assert_eq!((f.lo_char, f.hi_char), (b'A', b'B'));
    assert_eq!(f.modulo, 16);
    assert_eq!(
        f.char_data,
        vec![
            0xFF, 0, 0xFF, 0, 0, 0xFF, 0, 0xFF, 0, 0, 0, 0, 0xFF, 0xFF, 0xFF, 0xFF
        ]
    );
    assert_eq!(f.char_loc, vec![(0, 8), (8, 5)]);
    assert_eq!(f.char_loc.len(), (f.hi_char - f.lo_char + 1) as usize);
    assert_eq!(f.char_space, vec![9, -3]);
    assert!(f.char_kern.is_empty());
    assert!(f.is_proportional());
}

#[test]
fn font_without_tables_or_name() {
    let file = container_with(&font_payload("", false));
    let f = load_font(&file, &"topaz".to_string()).unwrap();
    assert_eq!(f.name, "topaz");
    assert_eq!(f.char_loc.len(), 2);
    assert!(f.char_space.is_empty());
    assert!(f.char_kern.is_empty());
    assert!(!f.is_proportional());
}

#[test]
fn font_errors() {
    let mut p = font_payload("x", true);
    p[12] = 11;
    assert_eq!(load_font(&container_with(&p), &String::new()).unwrap_err(), DecodeError::MalformedHeader);
    let mut p = font_payload("x", true);
    p[19] = 0x81;
    assert_eq!(load_font(&container_with(&p), &String::new()).unwrap_err(), DecodeError::MalformedHeader);
    let mut p = font_payload("x", true);
    p[98..102].copy_from_slice(&be32(1000));
    assert_eq!(load_font(&container_with(&p), &String::new()).unwrap_err(), DecodeError::Truncated);
    // two payload segments
    let mut file = container_with(&font_payload("x", true));
    file[16..20].copy_from_slice(&be32(1));
    assert!(load_font(&file, &String::new()).is_err());
}

#[test]
fn nibble_table() {
    assert_eq!(expand_nibble(0b1010), (0xFF, 0, 0xFF, 0));
    assert_eq!(expand_nibble(0b0001), (0, 0, 0, 0xFF));
    assert_eq!(expand_nibble(15), (0xFF, 0xFF, 0xFF, 0xFF));
}
