use faery::error::DecodeError;
use faery::font_dir::{load_font_sizes, FontDirectory, FontIssue};

fn entry(path: &str, y: u16, style: u8, flags: u8) -> Vec<u8> {
    let mut e = vec![0u8; 260];
    e[..path.len()].copy_from_slice(path.as_bytes());
    e[256..258].copy_from_slice(&y.to_be_bytes());
    e[258] = style;
    e[259] = flags;
    e
}

fn directory(entries: &[Vec<u8>]) -> Vec<u8> {
    let mut d = vec![0x0F, 0x00];
    d.extend_from_slice(&(entries.len() as u16).to_be_bytes());
    for e in entries {
        d.extend_from_slice(e);
    }
    d
}

#[test]
fn directory_lists_sizes() {
    let data = directory(&[entry("Amber/9", 9, 0, 0x42), entry("topaz13/8", 8, 1, 0)]);
    let dir = FontDirectory::parse(&data).unwrap();
    assert_eq!(dir.entries.len(), 2);
    assert_eq!(dir.entries[0].path, "Amber/9");
    assert_eq!(dir.entries[0].name, "Amber9");
    assert_eq!((dir.entries[0].y_size, dir.entries[0].style, dir.entries[0].flags), (9, 0, 0x42));
    assert_eq!(dir.entries[1].name, "topaz138");
}

#[test]
fn directory_errors() {
    let mut data = directory(&[entry("a/1", 1, 0, 0)]);
    data[1] = 1;
    assert_eq!(FontDirectory::parse(&data).unwrap_err(), DecodeError::MalformedHeader);
    let data = directory(&[entry("a/1", 1, 0, 0)]);
    assert_eq!(FontDirectory::parse(&data[..200].to_vec()).unwrap_err(), DecodeError::Truncated);
    let mut e = entry("", 1, 0, 0);
    for b in e.iter_mut().take(256) {
        *b = b'x';
    }
    assert_eq!(FontDirectory::parse(&directory(&[e])).unwrap_err(), DecodeError::MalformedHeader);
}

#[test]
fn missing_and_broken_sizes_do_not_stop_the_others() {
    let data = directory(&[entry("a/1", 1, 0, 0), entry("a/2", 2, 0, 0)]);
    let dir = FontDirectory::parse(&data).unwrap();
    let files = vec![None, Some(vec![0u8, 0, 3, 0xF4])];
    let r = load_font_sizes(&dir, &files);
    assert_eq!(r.len(), 2);
    assert!(matches!(r[0], Err(FontIssue::Missing)));
    assert!(matches!(r[1], Err(FontIssue::Failed(DecodeError::MalformedHeader))));
}
