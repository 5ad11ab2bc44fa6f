//! The relocatable segment container ("hunk" file): a header with a table of
//! segment sizes, then code and data segments, relocation runs and an end tag.
use vstd::prelude::*;

use crate::byteops::{be_u32, copy_bytes, read_u32};
use crate::error::DecodeError;

verus! {

/// The magic number that opens a container.
pub const MAGIC_COOKIE: u32 = 0x03F3;

/// Block tag of a code segment.
pub const HUNK_CODE: u32 = 0x03E9;

/// Block tag of a data segment.
pub const HUNK_DATA: u32 = 0x03EA;

/// Block tag of a relocation run.
pub const HUNK_RELOC32: u32 = 0x03EC;

/// Block tag that ends the container.
pub const HUNK_END: u32 = 0x03F2;

/// The 32-bit word at `off`, if the input holds one there.
pub open spec fn word_at(d: Seq<u8>, off: int) -> Option<int> {
    if 0 <= off && off + 4 <= d.len() {
        Some(be_u32(d, off))
    } else {
        None
    }
}

/// Entry `i` of the size table, which starts at `start`: the low thirty bits
/// of its word (the top two are allocation flags) counted in 32-bit words.
pub open spec fn size_entry(d: Seq<u8>, start: int, i: int) -> int {
    (be_u32(d, start + 4 * i) % 0x4000_0000) * 4
}

/// Offset `j` of a relocation run whose offsets start at `start` can be
/// followed: the input holds it, and a 32-bit value lies there in `target`.
pub open spec fn reloc_ok(d: Seq<u8>, start: int, j: int, target: Seq<u8>) -> bool {
    &&& start + 4 * j + 4 <= d.len()
    &&& be_u32(d, start + 4 * j) + 4 <= target.len()
}

/// The segments of a container, parsed from the block at `off` on, with
/// `segs` (tag and bytes of each) loaded so far. Inside a relocation run
/// (`in_reloc`) each step reads one group of offsets or the zero that ends the run.
pub open spec fn parse_blocks(
    d: Seq<u8>,
    off: int,
    sizes: Seq<int>,
    in_reloc: bool,
    segs: Seq<(u32, Seq<u8>)>,
) -> Result<Seq<(u32, Seq<u8>)>, DecodeError>
    decreases d.len() - off,
{
    if off < 0 || off + 4 > d.len() {
        Err(DecodeError::Truncated)
    } else if in_reloc {
        let count = be_u32(d, off);
        if count == 0 {
            parse_blocks(d, off + 4, sizes, false, segs)
        } else if off + 8 > d.len() {
            Err(DecodeError::Truncated)
        } else if be_u32(d, off + 4) >= segs.len() {
            Err(DecodeError::MalformedHeader)
        } else if off + 8 + 4 * count > d.len() {
            Err(DecodeError::Truncated)
        } else if exists|j: int|
            0 <= j < count && !#[trigger] reloc_ok(d, off + 8, j, segs[be_u32(d, off + 4)].1) {
            Err(DecodeError::Truncated)
        } else {
            parse_blocks(d, off + 8 + 4 * count, sizes, true, segs)
        }
    } else {
        let tag = be_u32(d, off);
        if tag == HUNK_CODE || tag == HUNK_DATA {
            if off + 8 > d.len() {
                Err(DecodeError::Truncated)
            } else {
                let size = be_u32(d, off + 4) * 4;
                if segs.len() >= sizes.len() || size != sizes[segs.len() as int] {
                    Err(DecodeError::MalformedHeader)
                } else if off + 8 + size > d.len() {
                    Err(DecodeError::Truncated)
                } else {
                    parse_blocks(
                        d,
                        off + 8 + size,
                        sizes,
                        false,
                        segs.push((tag as u32, d.subrange(off + 8, off + 8 + size))),
                    )
                }
            }
        } else if tag == HUNK_RELOC32 {
            parse_blocks(d, off + 4, sizes, true, segs)
        } else if tag == HUNK_END {
            Ok(segs)
        } else {
            Err(DecodeError::UnsupportedFeature)
        }
    }
}

/// What a container parses to: table size, first and last slot, the size
/// table, and the tag and bytes of each segment in order.
pub open spec fn parse_container(d: Seq<u8>) -> Result<
    (u32, u32, u32, Seq<int>, Seq<(u32, Seq<u8>)>),
    DecodeError,
> {
    if d.len() < 4 {
        Err(DecodeError::Truncated)
    } else if be_u32(d, 0) != MAGIC_COOKIE {
        Err(DecodeError::MalformedHeader)
    } else if d.len() < 8 {
        Err(DecodeError::Truncated)
    } else if be_u32(d, 4) != 0 {
        Err(DecodeError::MalformedHeader)
    } else if d.len() < 20 {
        Err(DecodeError::Truncated)
    } else {
        let first = be_u32(d, 12);
        let last = be_u32(d, 16);
        if last < first {
            Err(DecodeError::MalformedHeader)
        } else {
            let count = last - first + 1;
            if 20 + 4 * count > d.len() {
                Err(DecodeError::Truncated)
            } else {
                let sizes = Seq::new(count as nat, |i: int| size_entry(d, 20, i));
                match parse_blocks(d, 20 + 4 * count, sizes, false, Seq::empty()) {
                    Ok(segs) => Ok((be_u32(d, 8) as u32, first as u32, last as u32, sizes, segs)),
                    Err(e) => Err(e),
                }
            }
        }
    }
}

/// The error of a container that does not parse.
pub type HunkError = DecodeError;

/// The header of a container.
#[derive(Debug, Clone)]
pub struct HunkHeader {
    /// The number of segment slots.
    pub table_size: u32,
    /// The first slot used.
    pub first_hunk: u32,
    /// The last slot used.
    pub last_hunk: u32,
    /// The size in bytes of each slot from the first to the last.
    pub hunk_sizes: Vec<usize>,
}

/// One code or data segment.
#[derive(Debug, Clone)]
pub struct Hunk {
    pub hunk_id: u32,
    pub hunk_size: usize,
    pub data: Vec<u8>,
}

/// A parsed container.
#[derive(Debug, Clone)]
pub struct HunkData {
    pub header: HunkHeader,
    pub hunks: Vec<Hunk>,
}

impl Hunk {
    /// The tag and the bytes.
    pub open spec fn view(&self) -> (u32, Seq<u8>) {
        (self.hunk_id, self.data@)
    }
}

impl HunkData {
    /// The segments, each well formed: its size is the length of its bytes.
    pub open spec fn segments(&self) -> Seq<(u32, Seq<u8>)> {
        self.hunks@.map_values(|h: Hunk| h@)
    }

    pub open spec fn sizes_view(&self) -> Seq<int> {
        self.header.hunk_sizes@.map_values(|s: usize| s as int)
    }

    /// The parse that this value is the result of.
    pub open spec fn model(&self) -> (u32, u32, u32, Seq<int>, Seq<(u32, Seq<u8>)>) {
        (
            self.header.table_size,
            self.header.first_hunk,
            self.header.last_hunk,
            self.sizes_view(),
            self.segments(),
        )
    }

    pub open spec fn sizes_match_data(&self) -> bool {
        forall|i: int|
            0 <= i < self.hunks@.len() ==> #[trigger] self.hunks@[i].hunk_size
                == self.hunks@[i].data@.len()
    }
}

/// Parses a container held in `data`. Relocation runs are read and checked,
/// never applied.
pub fn load_hunk_data(data: &Vec<u8>) -> (r: Result<HunkData, DecodeError>)
    ensures
        match r {
            Ok(h) => parse_container(data@) == Ok::<
                (u32, u32, u32, Seq<int>, Seq<(u32, Seq<u8>)>),
                DecodeError,
            >(h.model()) && h.sizes_match_data(),
            Err(e) => parse_container(data@) == Err::<
                (u32, u32, u32, Seq<int>, Seq<(u32, Seq<u8>)>),
                DecodeError,
            >(e),
        },
{
    let ghost d = data@;
    let mut offset: usize = 0;
    let cookie = read_u32(data, &mut offset)?;
    proof {
        crate::byteops::lemma_be_range(d, 0);
    }
    if cookie != MAGIC_COOKIE {
        return Err(DecodeError::MalformedHeader);
    }
    let reserved = read_u32(data, &mut offset)?;
    proof {
        crate::byteops::lemma_be_range(d, 4);
    }
    if reserved != 0 {
        return Err(DecodeError::MalformedHeader);
    }
    let table_size = read_u32(data, &mut offset)?;
    let first_hunk = read_u32(data, &mut offset)?;
    let last_hunk = read_u32(data, &mut offset)?;
    proof {
        crate::byteops::lemma_be_range(d, 8);
        crate::byteops::lemma_be_range(d, 12);
        crate::byteops::lemma_be_range(d, 16);
    }
    if last_hunk < first_hunk {
        return Err(DecodeError::MalformedHeader);
    }
    let count: u64 = (last_hunk - first_hunk) as u64 + 1;
    let ghost sizes_spec = Seq::new(count as nat, |i: int| size_entry(d, 20, i));
    let mut hunk_sizes: Vec<usize> = Vec::new();
    let mut i: u64 = 0;
    while i < count
        invariant
            d == data@,
            d.len() >= 20,
            be_u32(d, 0) == MAGIC_COOKIE,
            be_u32(d, 4) == 0,
            be_u32(d, 12) == first_hunk,
            be_u32(d, 16) == last_hunk,
            last_hunk >= first_hunk,
            count == last_hunk - first_hunk + 1,
            i <= count,
            offset <= d.len(),
            offset == 20 + 4 * i,
            sizes_spec == Seq::new(count as nat, |i: int| size_entry(d, 20, i)),
            hunk_sizes@.len() == i,
            forall|k: int| 0 <= k < i ==> #[trigger] hunk_sizes@[k] as int == sizes_spec[k],
        decreases count - i,
    {
        let v = read_u32(data, &mut offset)?;
        proof {
            crate::byteops::lemma_be_range(d, 20 + 4 * i);
        }
        hunk_sizes.push(((v % 0x4000_0000) * 4) as usize);
        i = i + 1;
    }
    let header = HunkHeader { table_size, first_hunk, last_hunk, hunk_sizes };
    assert(header.hunk_sizes@.map_values(|s: usize| s as int) =~= sizes_spec);
    let ghost start = offset as int;
    assert(parse_container(d) == match parse_blocks(d, start, sizes_spec, false, Seq::empty()) {
        Ok(segs) => Ok((table_size, first_hunk, last_hunk, sizes_spec, segs)),
        Err(e) => Err(e),
    });
    let mut hunks: Vec<Hunk> = Vec::new();
    let mut in_reloc = false;
    assert(hunks@.map_values(|h: Hunk| h@) =~= Seq::empty());
    loop
        invariant_except_break
            parse_blocks(d, offset as int, sizes_spec, in_reloc, hunks@.map_values(|h: Hunk| h@))
                == parse_blocks(d, start, sizes_spec, false, Seq::empty()),
        invariant
            parse_container(d) == match parse_blocks(d, start, sizes_spec, false, Seq::empty()) {
                Ok(segs) => Ok((table_size, first_hunk, last_hunk, sizes_spec, segs)),
                Err(e) => Err(e),
            },
            start == 20 + 4 * sizes_spec.len(),
            start <= d.len(),
            sizes_spec == Seq::new(count as nat, |i: int| size_entry(d, 20, i)),
            d == data@,
            offset <= d.len(),
            header.hunk_sizes@.map_values(|s: usize| s as int) == sizes_spec,
            header.hunk_sizes@.len() == sizes_spec.len(),
            forall|k: int| 0 <= k < sizes_spec.len() ==> #[trigger] header.hunk_sizes@[k] as int == sizes_spec[k],
            forall|k: int|
                0 <= k < hunks@.len() ==> #[trigger] hunks@[k].hunk_size == hunks@[k].data@.len(),
        ensures
            parse_blocks(d, start, sizes_spec, false, Seq::empty()) == Ok::<
                Seq<(u32, Seq<u8>)>,
                DecodeError,
            >(hunks@.map_values(|h: Hunk| h@)),
        decreases d.len() - offset,
    {
        let ghost segs = hunks@.map_values(|h: Hunk| h@);
        let ghost off0 = offset as int;
        if in_reloc {
            let n = read_u32(data, &mut offset)?;
            proof {
                crate::byteops::lemma_be_range(d, off0);
            }
            if n == 0 {
                in_reloc = false;
            } else {
                let target = read_u32(data, &mut offset)?;
                proof {
                    crate::byteops::lemma_be_range(d, off0 + 4);
                }
                if target as usize >= hunks.len() {
                    return Err(DecodeError::MalformedHeader);
                }
                let tdata = &hunks[target as usize].data;
                assert(tdata@ == segs[target as int].1);
                let mut j: u32 = 0;
                while j < n
                    invariant
                        d == data@,
                        parse_container(d) == match parse_blocks(
                            d,
                            start,
                            sizes_spec,
                            false,
                            Seq::empty(),
                        ) {
                            Ok(segs) => Ok((table_size, first_hunk, last_hunk, sizes_spec, segs)),
                            Err(e) => Err(e),
                        },
                        parse_blocks(d, off0, sizes_spec, true, segs) == parse_blocks(
                            d,
                            start,
                            sizes_spec,
                            false,
                            Seq::empty(),
                        ),
                        0 <= off0,
                        n as int == be_u32(d, off0),
                        n != 0,
                        target as int == be_u32(d, off0 + 4),
                        target < segs.len(),
                        tdata@ == segs[target as int].1,
                        offset <= d.len(),
                        j <= n,
                        offset == off0 + 8 + 4 * j,
                        off0 + 8 <= d.len(),
                        forall|k: int| 0 <= k < j ==> #[trigger] reloc_ok(d, off0 + 8, k, tdata@),
                    decreases n - j,
                {
                    let at = read_u32(data, &mut offset);
                    match at {
                        Ok(w) => {
                            proof {
                                crate::byteops::lemma_be_range(d, off0 + 8 + 4 * j);
                            }
                            let mut ro = w as usize;
                            match read_u32(tdata, &mut ro) {
                                Ok(_) => {},
                                Err(e) => {
                                    assert(!reloc_ok(d, off0 + 8, j as int, tdata@));
                                    return Err(e);
                                },
                            }
                        },
                        Err(e) => {
                            assert(off0 + 8 + 4 * n > d.len());
                            return Err(e);
                        },
                    }
                    j = j + 1;
                }
                assert(!exists|k: int| 0 <= k < n && !#[trigger] reloc_ok(d, off0 + 8, k, tdata@));
            }
        } else {
            let tag = read_u32(data, &mut offset)?;
            proof {
                crate::byteops::lemma_be_range(d, off0);
            }
            if tag == HUNK_CODE || tag == HUNK_DATA {
                let v = read_u32(data, &mut offset)?;
                proof {
                    crate::byteops::lemma_be_range(d, off0 + 4);
                }
                if hunks.len() >= header.hunk_sizes.len() {
                    return Err(DecodeError::MalformedHeader);
                }
                let expected = header.hunk_sizes[hunks.len()];
                if v > 0x3FFF_FFFF {
                    proof {
                        let k = hunks@.len() as int;
                        crate::byteops::lemma_be_range(d, 20 + 4 * k);
                        let e = be_u32(d, 20 + 4 * k);
                        assert(e % 0x4000_0000 < 0x4000_0000);
                        assert(sizes_spec[k] == size_entry(d, 20, k));
                        assert(size_entry(d, 20, k) == (e % 0x4000_0000) * 4);
                    }
                    assert(sizes_spec[hunks@.len() as int] <= 0xFFFF_FFFC);
                    return Err(DecodeError::MalformedHeader);
                }
                let size = (v as usize) * 4;
                if size != expected {
                    return Err(DecodeError::MalformedHeader);
                }
                if size > data.len() - offset {
                    return Err(DecodeError::Truncated);
                }
                let bytes = copy_bytes(data, offset, size);
                offset = offset + size;
                let h = Hunk { hunk_id: tag, hunk_size: size, data: bytes };
                hunks.push(h);
                assert(hunks@.map_values(|h: Hunk| h@) =~= segs.push(
                    (tag, d.subrange(off0 + 8, off0 + 8 + size)),
                ));
            } else if tag == HUNK_RELOC32 {
                in_reloc = true;
            } else if tag == HUNK_END {
                break ;
            } else {
                return Err(DecodeError::UnsupportedFeature);
            }
        }
    }
    let r = HunkData { header, hunks };
    assert(r.sizes_view() == sizes_spec);
    Ok(r)
}

/// A container whose magic number or reserved word is wrong is rejected as
/// malformed, whatever follows.
pub proof fn lemma_bad_header_rejected(d: Seq<u8>)
    requires
        d.len() >= 8,
        be_u32(d, 0) != MAGIC_COOKIE || be_u32(d, 4) != 0,
    ensures
        parse_container(d) == Err::<(u32, u32, u32, Seq<int>, Seq<(u32, Seq<u8>)>), DecodeError>(
            DecodeError::MalformedHeader,
        ),
{
}

} // verus!
