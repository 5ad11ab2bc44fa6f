//! Font directories: the list of the sizes of a font, each in a file of its
//! own, and the loading of all of them.
use vstd::prelude::*;
use vstd::utf8::{decode_utf8, valid_utf8};

use crate::byteops::{be_u16, read_u16, utf8_to_string};
use crate::error::DecodeError;
use crate::font::{font_file_error, font_file_payload, load_font, DiskFont};

verus! {

/// Identifies a font directory.
pub const FCH_ID: u16 = 0x0F00;

/// Bytes of the path field of a directory entry.
pub const MAX_FONT_PATH: usize = 256;

/// Bytes of a directory entry: the path field, the height, style and flags.
pub const DIR_ENTRY_SIZE: usize = 260;

/// Path separator.
pub const SEPARATOR: u8 = 0x2F;

/// `e` is the end of the path in the field at `s`: the first NUL byte there.
pub open spec fn path_end(d: Seq<u8>, s: int, e: int) -> bool {
    &&& s <= e < s + 256
    &&& d[e] == 0
    &&& forall|i: int| s <= i < e ==> d[i] != 0
}

/// The path stored in the field at `s`.
pub open spec fn path_bytes(d: Seq<u8>, s: int) -> Seq<u8> {
    d.subrange(s, choose|e: int| path_end(d, s, e))
}

/// The path components run together: the bytes with the separators left out.
pub open spec fn strip_separators(p: Seq<u8>) -> Seq<u8>
    decreases p.len(),
{
    if p.len() == 0 {
        Seq::empty()
    } else if p.last() == SEPARATOR {
        strip_separators(p.drop_last())
    } else {
        strip_separators(p.drop_last()).push(p.last())
    }
}

/// The entry at `s` is well formed: its path ends inside its field and it
/// and the display name are text.
pub open spec fn entry_ok(d: Seq<u8>, s: int) -> bool {
    &&& exists|e: int| path_end(d, s, e)
    &&& valid_utf8(path_bytes(d, s))
    &&& valid_utf8(strip_separators(path_bytes(d, s)))
}

/// Start of entry `i`.
pub open spec fn entry_start(i: int) -> int {
    4 + 260 * i
}

/// Why a directory does not decode, if it does not.
pub open spec fn directory_error(d: Seq<u8>) -> Option<DecodeError> {
    if d.len() < 2 {
        Some(DecodeError::Truncated)
    } else if be_u16(d, 0) != FCH_ID {
        Some(DecodeError::MalformedHeader)
    } else if d.len() < 4 || entry_start(be_u16(d, 2)) > d.len() {
        Some(DecodeError::Truncated)
    } else if exists|i: int| 0 <= i < be_u16(d, 2) && !#[trigger] entry_ok(d, entry_start(i)) {
        Some(DecodeError::MalformedHeader)
    } else {
        None
    }
}

/// One size of a font.
#[derive(Debug, Clone)]
pub struct FontDirEntry {
    /// The file of this size, relative to the font directory.
    pub path: String,
    /// The path components run together, to name the font.
    pub name: String,
    pub y_size: u16,
    pub style: u8,
    pub flags: u8,
}

/// The sizes of a font.
#[derive(Debug, Clone)]
pub struct FontDirectory {
    pub entries: Vec<FontDirEntry>,
}

impl FontDirEntry {
    /// This entry is the one stored at `s`.
    pub open spec fn decoded_from(&self, d: Seq<u8>, s: int) -> bool {
        &&& self.path@ == decode_utf8(path_bytes(d, s))
        &&& self.name@ == decode_utf8(strip_separators(path_bytes(d, s)))
        &&& self.y_size == be_u16(d, s + 256)
        &&& self.style == d[s + 258]
        &&& self.flags == d[s + 259]
    }
}

/// The entry at `s`.
fn read_entry(data: &Vec<u8>, s: usize) -> (r: Result<FontDirEntry, DecodeError>)
    requires
        s + 260 <= data@.len(),
    ensures
        match r {
            Ok(e) => entry_ok(data@, s as int) && e.decoded_from(data@, s as int),
            Err(e) => e == DecodeError::MalformedHeader && !entry_ok(data@, s as int),
        },
{
    let ghost d = data@;
    let mut path: Vec<u8> = Vec::new();
    let mut name: Vec<u8> = Vec::new();
    let mut i: usize = s;
    let dlen = data.len();
    while i < s + MAX_FONT_PATH && data[i] != 0
        invariant
            dlen == data@.len(),
            s <= i <= s + 256,
            s + 260 <= d.len(),
            d == data@,
            path@ == d.subrange(s as int, i as int),
            name@ == strip_separators(path@),
            forall|k: int| s <= k < i ==> d[k] != 0,
        decreases s + 256 - i,
    {
        let b = data[i];
        let ghost before = path@;
        path.push(b);
        if b != SEPARATOR {
            name.push(b);
        }
        proof {
            assert(path@.drop_last() == before);
            assert(path@.last() == b);
        }
        i = i + 1;
        assert(path@ == d.subrange(s as int, i as int));
    }
    if i == s + MAX_FONT_PATH {
        assert forall|e: int| !path_end(d, s as int, e) by {
            if path_end(d, s as int, e) {
                assert(d[e] != 0);
            }
        }
        return Err(DecodeError::MalformedHeader);
    }
    assert(path_end(d, s as int, i as int));
    proof {
        let e = choose|e: int| path_end(d, s as int, e);
        if e < i {
            assert(d[e] != 0);
        } else if e > i {
            assert(d[i as int] != 0);
        }
        assert(path_bytes(d, s as int) == path@);
    }
    let path = match utf8_to_string(path) {
        Some(t) => t,
        None => return Err(DecodeError::MalformedHeader),
    };
    let name = match utf8_to_string(name) {
        Some(t) => t,
        None => return Err(DecodeError::MalformedHeader),
    };
    let mut o = s + MAX_FONT_PATH;
    let y_size = read_u16(data, &mut o)?;
    proof {
        crate::byteops::lemma_be_range(d, s + 256);
    }
    let style = data[s + 258];
    let flags = data[s + 259];
    Ok(FontDirEntry { path, name, y_size, style, flags })
}

impl FontDirectory {
    /// Decodes a font directory: an id, the number of entries, and the
    /// entries, each a 256-byte path field holding a NUL-terminated path,
    /// then the height, style and flags of that size.
    pub fn parse(data: &Vec<u8>) -> (r: Result<FontDirectory, DecodeError>)
        ensures
            match directory_error(data@) {
                Some(e) => r == Err::<FontDirectory, DecodeError>(e),
                None => r is Ok && r->Ok_0.entries@.len() == be_u16(data@, 2) && forall|i: int|
                    0 <= i < r->Ok_0.entries@.len() ==> #[trigger] r->Ok_0.entries@[i].decoded_from(
                        data@,
                        entry_start(i),
                    ),
            },
    {
        let ghost d = data@;
        let mut o: usize = 0;
        let id = read_u16(data, &mut o)?;
        proof {
            crate::byteops::lemma_be_range(d, 0);
        }
        if id != FCH_ID {
            return Err(DecodeError::MalformedHeader);
        }
        let count = read_u16(data, &mut o)?;
        proof {
            crate::byteops::lemma_be_range(d, 2);
        }
        let n = count as usize;
        if n * DIR_ENTRY_SIZE > data.len() - 4 {
            return Err(DecodeError::Truncated);
        }
        let mut entries: Vec<FontDirEntry> = Vec::new();
        let mut i: usize = 0;
        while i < n
            invariant
                d == data@,
                n == be_u16(d, 2),
                4 + 260 * n <= d.len(),
                i <= n,
                entries@.len() == i,
                forall|k: int| 0 <= k < i ==> #[trigger] entry_ok(d, entry_start(k)),
                forall|k: int|
                    0 <= k < i ==> #[trigger] entries@[k].decoded_from(d, entry_start(k)),
            decreases n - i,
        {
            let s = 4 + DIR_ENTRY_SIZE * i;
            match read_entry(data, s) {
                Ok(e) => entries.push(e),
                Err(e) => {
                    assert(!entry_ok(d, entry_start(i as int)));
                    return Err(e);
                },
            }
            i = i + 1;
        }
        Ok(FontDirectory { entries })
    }
}

/// Why one size of a font did not load.
#[derive(Debug, Clone, Copy, PartialEq, Eq, Structural)]
pub enum FontIssue {
    /// Its file is not there.
    Missing,
    /// Its file does not decode.
    Failed(DecodeError),
}

/// Loads every size of a font: `files[i]` holds the file of entry `i`, or
/// `None` where it is missing. A size that is missing or does not decode
/// gives its issue in its place, and the others load all the same.
pub fn load_font_sizes(dir: &FontDirectory, files: &Vec<Option<Vec<u8>>>) -> (r: Vec<
    Result<DiskFont, FontIssue>,
>)
    ensures
        r@.len() == dir.entries@.len(),
        forall|i: int|
            0 <= i < r@.len() ==> match if i < files@.len() {
                files@[i]
            } else {
                None
            } {
                None => #[trigger] r@[i] == Err::<DiskFont, FontIssue>(FontIssue::Missing),
                Some(b) => match font_file_error(b@) {
                    Some(e) => r@[i] == Err::<DiskFont, FontIssue>(FontIssue::Failed(e)),
                    None => r@[i] is Ok && r@[i]->Ok_0.decoded_from(
                        font_file_payload(b@),
                        dir.entries@[i].name@,
                    ),
                },
            },
{
    let mut out: Vec<Result<DiskFont, FontIssue>> = Vec::new();
    let mut i: usize = 0;
    while i < dir.entries.len()
        invariant
            i <= dir.entries@.len(),
            out@.len() == i,
            forall|k: int|
                0 <= k < i ==> match if k < files@.len() {
                    files@[k]
                } else {
                    None
                } {
                    None => #[trigger] out@[k] == Err::<DiskFont, FontIssue>(FontIssue::Missing),
                    Some(b) => match font_file_error(b@) {
                        Some(e) => out@[k] == Err::<DiskFont, FontIssue>(FontIssue::Failed(e)),
                        None => out@[k] is Ok && out@[k]->Ok_0.decoded_from(
                            font_file_payload(b@),
                            dir.entries@[k].name@,
                        ),
                    },
                },
        decreases dir.entries@.len() - i,
    {
        let item = if i < files.len() {
            match &files[i] {
                Some(bytes) => match load_font(bytes, &dir.entries[i].name) {
                    Ok(f) => Ok(f),
                    Err(e) => Err(FontIssue::Failed(e)),
                },
                None => Err(FontIssue::Missing),
            }
        } else {
            Err(FontIssue::Missing)
        };
        out.push(item);
        i = i + 1;
    }
    out
}

} // verus!
