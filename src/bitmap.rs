//! Planar bitmaps: one bit-plane per bit of palette index, rows padded to a
//! word boundary, converted on demand into packed RGBA32 pixels.
use vstd::arithmetic::power2::{lemma_pow2_unfold, pow2};
use vstd::prelude::*;

use crate::byteops::copy_bytes;
use crate::colors::{table_entry, Palette, RGB4};
use crate::error::DecodeError;

verus! {

/// Bytes per row of one plane for a given width: the bits of a row rounded up
/// to whole 16-bit words.
pub open spec fn row_stride(width: usize) -> usize {
    (((width + 15) as usize) >> 3usize) & !1usize
}

/// The row stride is a whole number of words and holds every pixel of a row.
pub proof fn lemma_row_stride(width: usize)
    requires
        width <= usize::MAX - 15,
    ensures
        row_stride(width) % 2 == 0,
        row_stride(width) * 8 >= width,
{
    let w15 = (width + 15) as usize;
    let s = (w15 >> 3usize) & !1usize;
    assert(s & 1usize == 0usize) by (bit_vector)
        requires
            s == (w15 >> 3usize) & !1usize,
    ;
    assert(s % 2 == 0) by (bit_vector)
        requires
            s & 1usize == 0usize,
    ;
    assert(s * 8 >= width) by (bit_vector)
        requires
            s == (w15 >> 3usize) & !1usize,
            w15 == width + 15,
            w15 >= width,
    ;
}

/// Plane `p` of a contiguous layout: `plane_size` bytes starting at `p * plane_size`.
pub open spec fn contiguous_planes(data: Seq<u8>, depth: int, plane_size: int) -> Seq<Seq<u8>> {
    Seq::new(depth as nat, |p: int| data.subrange(p * plane_size, p * plane_size + plane_size))
}

/// The first `rows` rows of plane `p` of a row-interleaved layout, in which
/// each row holds one `stride`-byte slice of every plane in turn.
pub open spec fn interleaved_plane(data: Seq<u8>, depth: int, stride: int, p: int, rows: nat) -> Seq<u8>
    decreases rows,
{
    if rows == 0 {
        Seq::empty()
    } else {
        let start = ((rows - 1) * depth + p) * stride;
        interleaved_plane(data, depth, stride, p, (rows - 1) as nat) + data.subrange(
            start,
            start + stride,
        )
    }
}

/// All planes of a row-interleaved layout of `height` rows.
pub open spec fn interleaved_planes(data: Seq<u8>, depth: int, stride: int, height: nat) -> Seq<Seq<u8>> {
    Seq::new(depth as nat, |p: int| interleaved_plane(data, depth, stride, p, height))
}

/// The bit of pixel `(x, y)` in one plane: bit `7 - x % 8` of the row's byte
/// `x / 8`, the leftmost pixel in the most significant bit.
pub open spec fn plane_bit(plane: Seq<u8>, stride: int, x: int, y: int) -> int {
    ((plane[y * stride + x / 8] >> ((7 - x % 8) as u8)) & 1u8) as int
}

/// The palette index formed by the bits of pixel `(x, y)` in planes `0..d`,
/// plane `p` giving bit `p`.
pub open spec fn index_upto(planes: Seq<Seq<u8>>, stride: int, x: int, y: int, d: nat) -> int
    decreases d,
{
    if d == 0 {
        0
    } else {
        index_upto(planes, stride, x, y, (d - 1) as nat) + plane_bit(planes[d - 1], stride, x, y)
            * pow2((d - 1) as nat)
    }
}

/// The palette index of pixel `(x, y)` in a bitmap of `depth` planes.
pub open spec fn pixel_index(planes: Seq<Seq<u8>>, stride: int, depth: int, x: int, y: int) -> int {
    index_upto(planes, stride, x, y, depth as nat)
}

/// `c` holds the palette index of every pixel, row after row.
pub open spec fn indices_match(
    c: Seq<usize>,
    planes: Seq<Seq<u8>>,
    width: int,
    height: int,
    stride: int,
    depth: int,
) -> bool {
    &&& c.len() == width * height
    &&& forall|y: int, x: int|
        0 <= y < height && 0 <= x < width ==> c[y * width + x] as int == #[trigger] pixel_index(
            planes,
            stride,
            depth,
            x,
            y,
        )
}

proof fn lemma_bit_is_bit(b: u8, k: u8)
    ensures
        (b >> k) & 1u8 <= 1u8,
{
    assert((b >> k) & 1u8 <= 1u8) by (bit_vector);
}

proof fn lemma_index_bound(planes: Seq<Seq<u8>>, stride: int, x: int, y: int, d: nat)
    ensures
        0 <= index_upto(planes, stride, x, y, d) < pow2(d),
    decreases d,
{
    if d > 0 {
        lemma_pow2_unfold(d);
        lemma_index_bound(planes, stride, x, y, (d - 1) as nat);
        let b = planes[d - 1][y * stride + x / 8];
        lemma_bit_is_bit(b, (7 - x % 8) as u8);
        let bit = plane_bit(planes[d - 1], stride, x, y);
        assert(bit == 0 || bit == 1);
        vstd::arithmetic::power2::lemma_pow2_pos((d - 1) as nat);
    } else {
        vstd::arithmetic::power2::lemma2_to64();
    }
}

proof fn lemma_interleaved_rows(
    contig: Seq<u8>,
    inter: Seq<u8>,
    depth: int,
    stride: int,
    height: int,
    p: int,
    rows: nat,
)
    requires
        0 <= p < depth,
        0 <= stride,
        rows <= height,
        contig.len() >= depth * stride * height,
        inter.len() >= depth * stride * height,
        forall|q: int, y: int, i: int|
            0 <= q < depth && 0 <= y < height && 0 <= i < stride ==> inter[(y * depth + q) * stride
                + i] == #[trigger] contig[q * (stride * height) + y * stride + i],
    ensures
        interleaved_plane(inter, depth, stride, p, rows) == contig.subrange(
            p * (stride * height),
            p * (stride * height) + rows * stride,
        ),
    decreases rows,
{
    let base = p * (stride * height);
    assert(0 <= base) by (nonlinear_arith)
        requires
            0 <= p,
            0 <= stride,
            0 <= height,
            base == p * (stride * height),
    ;
    assert(base + rows * stride <= depth * stride * height) by (nonlinear_arith)
        requires
            0 <= p < depth,
            rows <= height,
            0 <= stride,
            base == p * (stride * height),
    ;
    assert(0 <= rows * stride) by (nonlinear_arith)
        requires
            0 <= stride,
    ;
    if rows == 0 {
        assert(rows * stride == 0) by (nonlinear_arith)
            requires
                rows == 0,
        ;
        assert(contig.subrange(base, base + rows * stride) =~= Seq::<u8>::empty());
    }
    if rows > 0 {
        let r = rows - 1;
        lemma_interleaved_rows(contig, inter, depth, stride, height, p, (rows - 1) as nat);
        let start = (r * depth + p) * stride;
        assert(r * stride + stride == rows * stride) by (nonlinear_arith)
            requires
                r == rows - 1,
        ;
        assert(p * (stride * height) + rows * stride <= depth * stride * height) by (nonlinear_arith)
            requires
                0 <= p < depth,
                rows <= height,
                0 <= stride,
        ;
        assert((r * depth + p) * stride + stride <= depth * stride * height) by (nonlinear_arith)
            requires
                0 <= p < depth,
                0 <= r < height,
                0 <= stride,
        ;
        assert(0 <= r * stride) by (nonlinear_arith)
            requires
                0 <= r,
                0 <= stride,
        ;
        assert(0 <= (r * depth + p) * stride) by (nonlinear_arith)
            requires
                0 <= r,
                0 <= p,
                0 <= depth,
                0 <= stride,
        ;
        assert(0 <= base) by (nonlinear_arith)
            requires
                0 <= p,
                0 <= stride,
                0 <= height,
                base == p * (stride * height),
        ;
        assert(inter.subrange(start, start + stride) == contig.subrange(
            base + r * stride,
            base + rows * stride,
        )) by {
            assert forall|i: int| 0 <= i < stride implies #[trigger] inter.subrange(start, start + stride)[i]
                == contig.subrange(base + r * stride, base + rows * stride)[i] by {
                assert(inter[(r * depth + p) * stride + i] == contig[p * (stride * height) + r
                    * stride + i]);
            }
        }
        assert(contig.subrange(base, base + r * stride) + contig.subrange(
            base + r * stride,
            base + rows * stride,
        ) == contig.subrange(base, base + rows * stride));
    }
}

/// At most one sequence holds the palette index of every pixel.
pub proof fn lemma_indices_unique(
    c1: Seq<usize>,
    c2: Seq<usize>,
    planes: Seq<Seq<u8>>,
    width: int,
    height: int,
    stride: int,
    depth: int,
)
    requires
        width >= 0,
        height >= 0,
        indices_match(c1, planes, width, height, stride, depth),
        indices_match(c2, planes, width, height, stride, depth),
    ensures
        c1 == c2,
{
    assert forall|i: int| 0 <= i < c1.len() implies c1[i] == c2[i] by {
        let y = i / width;
        let x = i % width;
        assert(width > 0) by (nonlinear_arith)
            requires
                0 <= i < width * height,
                height >= 0,
        ;
        vstd::arithmetic::div_mod::lemma_fundamental_div_mod(i, width);
        vstd::arithmetic::div_mod::lemma_mod_pos_bound(i, width);
        assert(0 <= y < height) by (nonlinear_arith)
            requires
                0 <= i < width * height,
                width > 0,
                y == i / width,
        ;
        assert(i == y * width + x);
        assert(c1[y * width + x] as int == pixel_index(planes, stride, depth, x, y));
        assert(c2[y * width + x] as int == pixel_index(planes, stride, depth, x, y));
    }
    assert(c1 =~= c2);
}

/// Decoding one bitmap from row-interleaved bytes, or from the same rows laid
/// out plane after plane, gives the same planes, hence the same palette index
/// at every pixel and the same array of palette indices.
pub proof fn lemma_interleaved_matches_contiguous(
    contig: Seq<u8>,
    inter: Seq<u8>,
    width: nat,
    height: nat,
    depth: nat,
    stride: nat,
)
    requires
        contig.len() >= depth * stride * height,
        inter.len() >= depth * stride * height,
        forall|q: int, y: int, i: int|
            0 <= q < depth && 0 <= y < height && 0 <= i < stride ==> inter[(y * depth + q) * stride
                + i] == #[trigger] contig[q * (stride * height) + y * stride + i],
    ensures
        interleaved_planes(inter, depth as int, stride as int, height) == contiguous_planes(
            contig,
            depth as int,
            (stride * height) as int,
        ),
        forall|x: int, y: int|
            #[trigger] pixel_index(
                interleaved_planes(inter, depth as int, stride as int, height),
                stride as int,
                depth as int,
                x,
                y,
            ) == pixel_index(
                contiguous_planes(contig, depth as int, (stride * height) as int),
                stride as int,
                depth as int,
                x,
                y,
            ),
        forall|c1: Seq<usize>, c2: Seq<usize>|
            #![trigger indices_match(
                c1,
                interleaved_planes(inter, depth as int, stride as int, height),
                width as int,
                height as int,
                stride as int,
                depth as int,
            ), indices_match(
                c2,
                contiguous_planes(contig, depth as int, (stride * height) as int),
                width as int,
                height as int,
                stride as int,
                depth as int,
            )]
            indices_match(
                c1,
                interleaved_planes(inter, depth as int, stride as int, height),
                width as int,
                height as int,
                stride as int,
                depth as int,
            ) && indices_match(
                c2,
                contiguous_planes(contig, depth as int, (stride * height) as int),
                width as int,
                height as int,
                stride as int,
                depth as int,
            ) ==> c1 == c2,
{
    let a = interleaved_planes(inter, depth as int, stride as int, height);
    let b = contiguous_planes(contig, depth as int, (stride * height) as int);
    assert forall|p: int| 0 <= p < depth implies a[p] == b[p] by {
        lemma_interleaved_rows(
            contig,
            inter,
            depth as int,
            stride as int,
            height as int,
            p,
            height,
        );
        assert(height * stride == stride * height) by (nonlinear_arith);
    }
    assert(a == b);
    assert forall|c1: Seq<usize>, c2: Seq<usize>|
        indices_match(c1, a, width as int, height as int, stride as int, depth as int)
            && indices_match(
            c2,
            b,
            width as int,
            height as int,
            stride as int,
            depth as int,
        ) implies c1 == c2 by {
        lemma_indices_unique(c1, c2, a, width as int, height as int, stride as int, depth as int);
    }
}

/// Byte `k` of a packed color, in the order red, green, blue, alpha.
pub open spec fn color_byte(c: int, k: int) -> int {
    if k == 0 {
        c / 0x100_0000 % 256
    } else if k == 1 {
        c / 0x1_0000 % 256
    } else if k == 2 {
        c / 0x100 % 256
    } else {
        c % 256
    }
}

/// Entry `i` of a palette's lookup table once the key color, if any, is made
/// fully transparent.
pub open spec fn keyed_entry(colors: Seq<RGB4>, key: Option<usize>, i: int) -> int {
    if key is Some && key->Some_0 == i {
        0
    } else {
        table_entry(colors, i)
    }
}

/// Where byte `k` of pixel `(x, y)` goes in an output buffer whose rows are
/// `stride` bytes apart.
pub open spec fn out_pos(y: int, x: int, k: int, stride: int) -> int {
    y * stride + x * 4 + k
}

/// Position `i` holds a byte of some pixel of a `width` by `height` image.
pub open spec fn in_output(i: int, width: int, height: int, stride: int) -> bool {
    exists|y: int, x: int, k: int|
        0 <= y < height && 0 <= x < width && 0 <= k < 4 && i == #[trigger] out_pos(y, x, k, stride)
}

/// Byte `k` of pixel `(x, y)` as a conversion writes it, from the cached indices.
pub open spec fn pixel_byte(
    colors: Seq<RGB4>,
    key: Option<usize>,
    indices: Seq<usize>,
    width: int,
    x: int,
    y: int,
    k: int,
) -> int {
    color_byte(keyed_entry(colors, key, indices[y * width + x] as int), k)
}

proof fn lemma_out_pos_distinct(y1: int, x1: int, k1: int, y2: int, x2: int, k2: int, stride: int, width: int)
    requires
        0 <= y1 && 0 <= y2,
        0 <= x1 < width && 0 <= x2 < width,
        0 <= k1 < 4 && 0 <= k2 < 4,
        stride >= width * 4,
        y1 != y2 || x1 != x2 || k1 != k2,
    ensures
        out_pos(y1, x1, k1, stride) != out_pos(y2, x2, k2, stride),
{
    if y1 < y2 {
        assert(y1 * stride + stride <= y2 * stride) by (nonlinear_arith)
            requires
                y1 < y2,
                stride >= 0,
        ;
    } else if y2 < y1 {
        assert(y2 * stride + stride <= y1 * stride) by (nonlinear_arith)
            requires
                y2 < y1,
                stride >= 0,
        ;
    }
}

proof fn lemma_cell_in_grid(y: int, x: int, width: int, height: int)
    requires
        0 <= y < height,
        0 <= x < width,
    ensures
        0 <= y * width + x < width * height,
        0 <= y * width,
{
    assert(0 <= y * width + x < width * height) by (nonlinear_arith)
        requires
            0 <= y < height,
            0 <= x < width,
    ;
    assert(0 <= y * width) by (nonlinear_arith)
        requires
            0 <= y,
            0 <= width,
    ;
}

/// Position `i` holds a byte of one of the first `col` pixels of row `row`.
pub open spec fn in_row(i: int, row: int, col: int, stride: int) -> bool {
    exists|x: int|
        0 <= x < col && #[trigger] out_pos(row, x, 0, stride) <= i < out_pos(row, x, 0, stride) + 4
}

/// Writes the four bytes of a packed color at `off`.
fn put_pixel(pixels: &mut Vec<u8>, off: usize, color: u32)
    requires
        off + 4 <= old(pixels)@.len(),
    ensures
        final(pixels)@.len() == old(pixels)@.len(),
        forall|k: int| 0 <= k < 4 ==> #[trigger] final(pixels)@[off + k] as int == color_byte(color as int, k),
        forall|i: int|
            0 <= i < old(pixels)@.len() && !(off <= i < off + 4) ==> final(pixels)@[i] == old(pixels)@[i],
{
    let n = pixels.len();
    pixels.set(off, (color / 0x100_0000) as u8);
    pixels.set(off + 1, (color / 0x1_0000 % 256) as u8);
    pixels.set(off + 2, (color / 0x100 % 256) as u8);
    pixels.set(off + 3, (color % 256) as u8);
}

/// A write-once cell for the palette index of every pixel of a bitmap.
/// It starts empty; only a conversion fills it, and only `clear` empties it.
#[derive(Debug)]
pub struct IndexCache {
    buffer: Option<Vec<usize>>,
}

impl IndexCache {
    /// What the cell holds.
    pub closed spec fn view(&self) -> Option<Seq<usize>> {
        match self.buffer {
            Some(v) => Some(v@),
            None => None,
        }
    }

    /// An empty cell.
    pub fn new() -> (r: IndexCache)
        ensures
            r@ is None,
    {
        IndexCache { buffer: None }
    }

    /// What the cell holds.
    pub fn get(&self) -> (r: Option<&Vec<usize>>)
        ensures
            match r {
                Some(v) => self@ == Some(v@),
                None => self@ is None,
            },
    {
        match &self.buffer {
            Some(v) => Some(v),
            None => None,
        }
    }

    /// Fills the empty cell.
    fn fill(&mut self, v: Vec<usize>)
        requires
            old(self)@ is None,
        ensures
            final(self)@ == Some(v@),
    {
        self.buffer = Some(v);
    }

    /// Empties the cell.
    pub fn clear(&mut self)
        ensures
            final(self)@ is None,
    {
        self.buffer = None;
    }
}

/// A planar bitmap. `stride` is the number of bytes of one row of one plane.
#[derive(Debug)]
pub struct BitMap {
    pub width: usize,
    pub height: usize,
    pub depth: usize,
    pub stride: usize,
    pub planes: Vec<Vec<u8>>,
    pub index_cache: IndexCache,
}

impl BitMap {
    /// The contents of the planes.
    pub open spec fn plane_view(&self) -> Seq<Seq<u8>> {
        self.planes@.map_values(|p: Vec<u8>| p@)
    }

    /// The cached palette index of every pixel, once it has been computed.
    pub open spec fn cached_indices(&self) -> Option<Seq<usize>> {
        self.index_cache@
    }

    /// An empty bitmap with no planes.
    pub fn new() -> (r: BitMap)
        ensures
            r.width == 0 && r.height == 0 && r.depth == 0 && r.stride == 0,
            r.planes@.len() == 0,
            r.cached_indices() is None,
    {
        BitMap { width: 0, height: 0, depth: 0, stride: 0, planes: Vec::new(), index_cache: IndexCache::new() }
    }

    /// The width and the height.
    pub fn get_size(&self) -> (r: (usize, usize))
        ensures
            r == (self.width, self.height),
    {
        (self.width, self.height)
    }

    /// The depth is supported and every plane holds every row of pixels.
    pub open spec fn planes_fit(&self) -> bool {
        &&& 1 <= self.depth <= 5
        &&& self.width <= self.stride * 8
        &&& self.planes@.len() >= self.depth
        &&& forall|p: int|
            0 <= p < self.depth ==> #[trigger] self.planes@[p]@.len() >= self.stride * self.height
    }

    /// The cached indices, if any, cover every pixel with an index into the lookup table.
    pub open spec fn cache_fits(&self) -> bool {
        self.cached_indices() matches Some(c) ==> {
            &&& c.len() == self.width * self.height
            &&& forall|i: int| 0 <= i < c.len() ==> #[trigger] c[i] < pow2(self.depth as nat)
        }
    }

    /// An output buffer of `len` bytes with rows `stride` bytes apart holds every row.
    pub open spec fn output_fits(&self, len: int, stride: int) -> bool {
        self.height == 0 || (self.height - 1) * stride + self.width * 4 <= len
    }

    /// The palette index of every pixel, read from the planes.
    fn compute_indices(&self) -> (r: Vec<usize>)
        requires
            self.planes_fit(),
            self.width * self.height <= usize::MAX,
        ensures
            indices_match(
                r@,
                self.plane_view(),
                self.width as int,
                self.height as int,
                self.stride as int,
                self.depth as int,
            ),
            forall|i: int| 0 <= i < r@.len() ==> #[trigger] r@[i] < pow2(self.depth as nat),
    {
        let w = self.width;
        let h = self.height;
        let s = self.stride;
        let d = self.depth;
        let ghost pv = self.plane_view();
        let mut buf: Vec<usize> = Vec::new();
        let mut yy: usize = 0;
        while yy < h
            invariant
                self.planes_fit(),
                w == self.width && h == self.height && s == self.stride && d == self.depth,
                pv == self.plane_view(),
                w * h <= usize::MAX,
                yy <= h,
                buf@.len() == yy * w,
                forall|y: int, x: int|
                    0 <= y < yy && 0 <= x < w ==> buf@[y * w + x] as int == #[trigger] pixel_index(
                        pv,
                        s as int,
                        d as int,
                        x,
                        y,
                    ),
                forall|i: int| 0 <= i < buf@.len() ==> #[trigger] buf@[i] < pow2(d as nat),
            decreases h - yy,
        {
            let mut xx: usize = 0;
            while xx < w
                invariant
                    self.planes_fit(),
                    w == self.width && h == self.height && s == self.stride && d == self.depth,
                    pv == self.plane_view(),
                    w * h <= usize::MAX,
                    yy < h,
                    xx <= w,
                    buf@.len() == yy * w + xx,
                    forall|y: int, x: int|
                        0 <= y < yy && 0 <= x < w ==> buf@[y * w + x] as int == #[trigger] pixel_index(
                            pv,
                            s as int,
                            d as int,
                            x,
                            y,
                        ),
                    forall|x: int|
                        0 <= x < xx ==> buf@[yy * w + x] as int == #[trigger] pixel_index(
                            pv,
                            s as int,
                            d as int,
                            x,
                            yy as int,
                        ),
                    forall|i: int| 0 <= i < buf@.len() ==> #[trigger] buf@[i] < pow2(d as nat),
                decreases w - xx,
            {
                assert(yy * s + xx / 8 < s * h) by (nonlinear_arith)
                    requires
                        xx < w,
                        w <= s * 8,
                        yy < h,
                ;
                assert(0 <= yy * s) by (nonlinear_arith);
                let mut acc: usize = 0;
                let mut weight: usize = 1;
                let mut p: usize = 0;
                proof {
                    vstd::arithmetic::power2::lemma2_to64();
                }
                while p < d
                    invariant
                        self.planes_fit(),
                        w == self.width && h == self.height && s == self.stride && d == self.depth,
                        pv == self.plane_view(),
                        yy < h,
                        xx < w,
                        yy * s + xx / 8 < s * h,
                        p <= d,
                        weight == pow2(p as nat),
                        weight <= 32,
                        acc as int == index_upto(pv, s as int, xx as int, yy as int, p as nat),
                    decreases d - p,
                {
                    let plane = &self.planes[p];
                    assert(plane@ == pv[p as int]);
                    let plen = plane.len();
                    assert(yy * s + xx / 8 < plen);
                    let byte_index = yy * s + xx / 8;
                    let shift: u8 = (7 - xx % 8) as u8;
                    let bit = (plane[byte_index] >> shift) & 1u8;
                    proof {
                        lemma_bit_is_bit(plane@[byte_index as int], shift);
                        lemma_index_bound(pv, s as int, xx as int, yy as int, p as nat);
                        lemma_pow2_unfold((p + 1) as nat);
                        vstd::arithmetic::power2::lemma2_to64();
                        assert(bit as int == plane_bit(pv[p as int], s as int, xx as int, yy as int));
                        if p == 0 {} else if p == 1 {} else if p == 2 {} else if p == 3 {} else {}
                    }
                    assert(bit == 0u8 || bit == 1u8);
                    let add: usize = if bit == 1u8 { weight } else { 0 };
                    assert(add as int == (bit as int) * weight);
                    acc = acc + add;
                    weight = weight * 2;
                    p = p + 1;
                }
                proof {
                    lemma_index_bound(pv, s as int, xx as int, yy as int, d as nat);
                    lemma_cell_in_grid(yy as int, xx as int, w as int, h as int);
                }
                let ghost before = buf@;
                buf.push(acc);
                assert forall|y: int, x: int| 0 <= y < yy && 0 <= x < w implies buf@[y * w + x] as int
                    == #[trigger] pixel_index(pv, s as int, d as int, x, y) by {
                    lemma_cell_in_grid(y, x, w as int, yy as int);
                    assert(w * yy == yy * w) by (nonlinear_arith);
                    assert(buf@[y * w + x] == before[y * w + x]);
                }
                xx = xx + 1;
            }
            assert(yy * w + w == (yy + 1) * w) by (nonlinear_arith);
            yy = yy + 1;
        }
        assert(buf@.len() == w * h) by (nonlinear_arith)
            requires
                buf@.len() == yy * w,
                yy == h,
        ;
        buf
    }

    /// Checks that an output buffer of `len` bytes with rows `stride` bytes
    /// apart, the planes and the cache fit together; returns the pixel count.
    #[verifier::loop_isolation(false)]
    fn check_layout(&self, len: usize, stride: usize) -> (r: Result<usize, DecodeError>)
        ensures
            !self.output_fits(len as int, stride as int) ==> r == Err::<usize, DecodeError>(
                DecodeError::Truncated,
            ),
            self.output_fits(len as int, stride as int) && !(self.planes_fit() && self.cache_fits()
                && stride >= self.width * 4) ==> r == Err::<usize, DecodeError>(
                DecodeError::InvalidDimension,
            ),
            r is Ok <==> self.output_fits(len as int, stride as int) && self.planes_fit()
                && self.cache_fits() && stride >= self.width * 4,
            r matches Ok(n) ==> n == self.width * self.height,
    {
        let w = self.width;
        let h = self.height;
        let d = self.depth;
        let s = self.stride;
        // the output buffer
        if h > 0 {
            let last_row = match (h - 1).checked_mul(stride) {
                Some(n) => n,
                None => return Err(DecodeError::Truncated),
            };
            let row_bytes = match w.checked_mul(4) {
                Some(n) => n,
                None => {
                    assert((h - 1) * stride + w * 4 > len) by (nonlinear_arith)
                        requires
                            w * 4 > usize::MAX,
                            h >= 1,
                            stride >= 0,
                    ;
                    return Err(DecodeError::Truncated);
                },
            };
            if last_row > len || row_bytes > len - last_row {
                return Err(DecodeError::Truncated);
            }
        }
        assert(self.output_fits(len as int, stride as int));
        // the geometry of the planes and of the cache
        if d < 1 || d > 5 || self.planes.len() < d {
            return Err(DecodeError::InvalidDimension);
        }
        match w.checked_mul(4) {
            Some(n) => {
                if stride < n {
                    return Err(DecodeError::InvalidDimension);
                }
            },
            None => return Err(DecodeError::InvalidDimension),
        }
        match s.checked_mul(8) {
            Some(n) => {
                if w > n {
                    return Err(DecodeError::InvalidDimension);
                }
            },
            None => {},
        }
        let plane_size = match s.checked_mul(h) {
            Some(n) => n,
            None => {
                let l0 = self.planes[0].len();
                assert(self.planes@[0]@.len() < s * h);
                return Err(DecodeError::InvalidDimension);
            },
        };
        let mut p: usize = 0;
        while p < d
            invariant
                p <= d,
                d == self.depth,
                d <= self.planes@.len(),
                plane_size == self.stride * self.height,
                forall|q: int| 0 <= q < p ==> #[trigger] self.planes@[q]@.len() >= plane_size,
            decreases d - p,
        {
            if self.planes[p].len() < plane_size {
                return Err(DecodeError::InvalidDimension);
            }
            p = p + 1;
        }
        assert(self.planes_fit());
        let pixel_count = match w.checked_mul(h) {
            Some(n) => n,
            None => {
                if h > 0 {
                    assert(w * h <= (h - 1) * stride + w * 4) by (nonlinear_arith)
                        requires
                            stride >= w * 4,
                            h >= 1,
                            w >= 0,
                    ;
                }
                assert(w * h <= len) by (nonlinear_arith)
                    requires
                        h == 0 || w * h <= (h - 1) * stride + w * 4,
                        h == 0 || (h - 1) * stride + w * 4 <= len,
                ;
                return Err(DecodeError::InvalidDimension);
            },
        };
        let table_size = Self::table_size(d);
        match self.index_cache.get() {
            Some(c) => {
                if c.len() != pixel_count {
                    return Err(DecodeError::InvalidDimension);
                }
                let mut i: usize = 0;
                while i < c.len()
                    invariant
                        i <= c@.len(),
                        self.index_cache@ == Some(c@),
                        table_size == pow2(d as nat),
                        forall|j: int| 0 <= j < i ==> #[trigger] c@[j] < pow2(d as nat),
                    decreases c@.len() - i,
                {
                    if c[i] >= table_size {
                        assert(c@[i as int] >= pow2(d as nat));
                        return Err(DecodeError::InvalidDimension);
                    }
                    i = i + 1;
                }
            },
            None => {},
        }
        Ok(pixel_count)
    }

    /// `2^depth`, the number of entries of a lookup table for `depth` planes.
    fn table_size(depth: usize) -> (r: usize)
        requires
            1 <= depth <= 5,
        ensures
            r == pow2(depth as nat),
    {
        proof {
            vstd::arithmetic::power2::lemma2_to64();
        }
        if depth == 1 {
            2
        } else if depth == 2 {
            4
        } else if depth == 3 {
            8
        } else if depth == 4 {
            16
        } else {
            32
        }
    }

    /// Writes the pixels of the bitmap into `pixels` as RGBA32, rows `stride`
    /// bytes apart, through the palette's lookup table with the key color, if
    /// any, made transparent. The palette index of every pixel is read from
    /// the planes on the first call and kept: later calls reuse it whatever
    /// became of the planes, until the cache is cleared.
    pub fn update_rgb32(
        &mut self,
        pixels: &mut Vec<u8>,
        stride: usize,
        colors: &Palette,
        key_color: Option<usize>,
    ) -> (r: Result<(), DecodeError>)
        ensures
            final(self).width == old(self).width,
            final(self).height == old(self).height,
            final(self).depth == old(self).depth,
            final(self).stride == old(self).stride,
            final(self).planes == old(self).planes,
            !old(self).output_fits(old(pixels)@.len() as int, stride as int) ==> r == Err::<
                (),
                DecodeError,
            >(DecodeError::Truncated),
            old(self).output_fits(old(pixels)@.len() as int, stride as int) && !(old(self).planes_fit()
                && old(self).cache_fits() && stride >= old(self).width * 4) ==> r == Err::<
                (),
                DecodeError,
            >(DecodeError::InvalidDimension),
            r is Ok <==> old(self).output_fits(old(pixels)@.len() as int, stride as int)
                && old(self).planes_fit() && old(self).cache_fits() && stride >= old(self).width * 4,
            r is Err ==> final(self).cached_indices() == old(self).cached_indices() && final(pixels)@
                == old(pixels)@,
            r is Ok ==> {
                &&& old(self).cached_indices() matches Some(c) ==> final(self).cached_indices() == Some(c)
                &&& old(self).cached_indices() is None ==> final(self).cached_indices() is Some
                    && indices_match(
                    final(self).cached_indices()->Some_0,
                    old(self).plane_view(),
                    old(self).width as int,
                    old(self).height as int,
                    old(self).stride as int,
                    old(self).depth as int,
                )
                &&& final(pixels)@.len() == old(pixels)@.len()
                &&& forall|y: int, x: int, k: int|
                    0 <= y < old(self).height && 0 <= x < old(self).width && 0 <= k < 4
                        ==> final(pixels)@[#[trigger] out_pos(y, x, k, stride as int)] as int
                        == pixel_byte(
                        colors.colors@,
                        key_color,
                        final(self).cached_indices()->Some_0,
                        old(self).width as int,
                        x,
                        y,
                        k,
                    )
                &&& forall|i: int|
                    0 <= i < old(pixels)@.len() && !in_output(
                        i,
                        old(self).width as int,
                        old(self).height as int,
                        stride as int,
                    ) ==> final(pixels)@[i] == old(pixels)@[i]
            },
    {
        let w = self.width;
        let h = self.height;
        let d = self.depth;
        let len = pixels.len();
        let pixel_count = match self.check_layout(len, stride) {
            Ok(n) => n,
            Err(e) => return Err(e),
        };
        let mut table = match colors.to_rgba32_table(d) {
            Ok(t) => t,
            Err(e) => return Err(e),
        };
        assert(self.cache_fits());
        if let Some(k) = key_color {
            if k < table.len() {
                table.set(k, 0);
            }
        }
        assert(forall|i: int|
            0 <= i < table@.len() ==> #[trigger] table@[i] as int == keyed_entry(colors.colors@, key_color, i));
        if self.index_cache.get().is_none() {
            let fresh = self.compute_indices();
            self.index_cache.fill(fresh);
        }
        let indices = match self.index_cache.get() {
            Some(c) => c,
            None => return Err(DecodeError::InvalidDimension),
        };
        let ilen = indices.len();
        let ghost cache = indices@;
        let ghost old_pixels = pixels@;
        let mut row: usize = 0;
        while row < h
            invariant
                w == self.width && h == self.height && d == self.depth,
                len == pixels@.len(),
                old_pixels.len() == len,
                h == 0 || (h - 1) * stride + w * 4 <= len,
                stride >= w * 4,
                cache == indices@,
                ilen == cache.len(),
                cache.len() == w * h,
                forall|i: int| 0 <= i < cache.len() ==> #[trigger] cache[i] < table@.len(),
                forall|i: int|
                    0 <= i < table@.len() ==> #[trigger] table@[i] as int == keyed_entry(
                        colors.colors@,
                        key_color,
                        i,
                    ),
                row <= h,
                forall|y: int, x: int, k: int|
                    0 <= y < row && 0 <= x < w && 0 <= k < 4 ==> pixels@[#[trigger] out_pos(
                        y,
                        x,
                        k,
                        stride as int,
                    )] as int == pixel_byte(colors.colors@, key_color, cache, w as int, x, y, k),
                forall|i: int|
                    0 <= i < len && !in_output(i, w as int, row as int, stride as int) ==> pixels@[i]
                        == old_pixels[i],
            decreases h - row,
        {
            let mut col: usize = 0;
            assert(row * stride + w * 4 <= len) by (nonlinear_arith)
                requires
                    row < h,
                    (h - 1) * stride + w * 4 <= len,
                    stride >= 0,
            ;
            assert(0 <= row * stride) by (nonlinear_arith);
            while col < w
                invariant
                    w == self.width && h == self.height && d == self.depth,
                    len == pixels@.len(),
                    old_pixels.len() == len,
                    row < h,
                    row * stride + w * 4 <= len,
                    stride >= w * 4,
                    cache == indices@,
                    ilen == cache.len(),
                    cache.len() == w * h,
                    forall|i: int| 0 <= i < cache.len() ==> #[trigger] cache[i] < table@.len(),
                    forall|i: int|
                        0 <= i < table@.len() ==> #[trigger] table@[i] as int == keyed_entry(
                            colors.colors@,
                            key_color,
                            i,
                        ),
                    col <= w,
                    forall|y: int, x: int, k: int|
                        ((0 <= y < row && 0 <= x < w) || (y == row && 0 <= x < col)) && 0 <= k < 4
                            ==> pixels@[#[trigger] out_pos(y, x, k, stride as int)] as int
                            == pixel_byte(colors.colors@, key_color, cache, w as int, x, y, k),
                    forall|i: int|
                        0 <= i < len && !in_output(i, w as int, row as int, stride as int)
                            && !in_row(i, row as int, col as int, stride as int) ==> pixels@[i]
                            == old_pixels[i],
                decreases w - col,
            {
                proof {
                    lemma_cell_in_grid(row as int, col as int, w as int, h as int);
                }
                let ci = indices[row * w + col];
                let color = table[ci];
                let off = row * stride + col * 4;
                let ghost before = pixels@;
                put_pixel(pixels, off, color);
                proof {
                    assert forall|y: int, x: int, k: int|
                        ((0 <= y < row && 0 <= x < w) || (y == row && 0 <= x < col + 1)) && 0 <= k < 4
                            implies pixels@[#[trigger] out_pos(y, x, k, stride as int)] as int
                            == pixel_byte(colors.colors@, key_color, cache, w as int, x, y, k) by {
                        if y == row && x == col {
                        } else {
                            assert(0 <= y * stride <= row * stride) by (nonlinear_arith)
                                requires
                                    0 <= y <= row,
                                    stride >= 0,
                            ;
                            lemma_out_pos_distinct(y, x, k, row as int, col as int, 0, stride as int, w as int);
                            lemma_out_pos_distinct(y, x, k, row as int, col as int, 1, stride as int, w as int);
                            lemma_out_pos_distinct(y, x, k, row as int, col as int, 2, stride as int, w as int);
                            lemma_out_pos_distinct(y, x, k, row as int, col as int, 3, stride as int, w as int);
                            assert(pixels@[out_pos(y, x, k, stride as int)] == before[out_pos(y, x, k, stride as int)]);
                        }
                    }
                    assert forall|i: int|
                        0 <= i < len && !in_output(i, w as int, row as int, stride as int)
                            && !in_row(i, row as int, (col + 1) as int, stride as int) implies pixels@[i]
                            == old_pixels[i] by {
                        if off <= i < off + 4 {
                            assert(out_pos(row as int, col as int, 0, stride as int) == off);
                        }
                        if in_row(i, row as int, col as int, stride as int) {
                            let x = choose|x: int|
                                0 <= x < col && #[trigger] out_pos(row as int, x, 0, stride as int) <= i < out_pos(row as int, x, 0, stride as int) + 4;
                            assert(0 <= x < col + 1 && out_pos(row as int, x, 0, stride as int) <= i < out_pos(row as int, x, 0, stride as int) + 4);
                        }
                    }
                }
                col = col + 1;
            }
            proof {
                assert forall|i: int|
                    0 <= i < len && !in_output(i, w as int, (row + 1) as int, stride as int) implies pixels@[i]
                        == old_pixels[i] by {
                    if in_output(i, w as int, row as int, stride as int) {
                        let (y, x, k) = choose|y: int, x: int, k: int|
                            0 <= y < row && 0 <= x < w && 0 <= k < 4 && i == #[trigger] out_pos(y, x, k, stride as int);
                        assert(0 <= y < row + 1 && 0 <= x < w && 0 <= k < 4 && i == out_pos(y, x, k, stride as int));
                    }
                    if in_row(i, row as int, w as int, stride as int) {
                        let x = choose|x: int|
                            0 <= x < w && #[trigger] out_pos(row as int, x, 0, stride as int) <= i < out_pos(row as int, x, 0, stride as int) + 4;
                        let k = i - out_pos(row as int, x, 0, stride as int);
                        assert(i == out_pos(row as int, x, k, stride as int));
                    }
                }
            }
            row = row + 1;
        }
        Ok(())
    }

    /// A fresh RGBA32 buffer of the bitmap, rows `width * 4` bytes apart, and
    /// that row stride.
    pub fn generate_rgb32(&mut self, colors: &Palette, key_color: Option<usize>) -> (r: Result<
        (Vec<u8>, usize),
        DecodeError,
    >)
        ensures
            final(self).width == old(self).width,
            final(self).height == old(self).height,
            final(self).depth == old(self).depth,
            final(self).stride == old(self).stride,
            final(self).planes == old(self).planes,
            r is Ok <==> old(self).planes_fit() && old(self).cache_fits() && old(self).width * 4
                <= usize::MAX && old(self).width * 4 * old(self).height <= usize::MAX,
            r is Err ==> r == Err::<(Vec<u8>, usize), DecodeError>(DecodeError::InvalidDimension)
                && final(self).cached_indices() == old(self).cached_indices(),
            r matches Ok((px, st)) ==> {
                &&& st == old(self).width * 4
                &&& px@.len() == old(self).width * 4 * old(self).height
                &&& old(self).cached_indices() matches Some(c) ==> final(self).cached_indices() == Some(c)
                &&& old(self).cached_indices() is None ==> final(self).cached_indices() is Some
                    && indices_match(
                    final(self).cached_indices()->Some_0,
                    old(self).plane_view(),
                    old(self).width as int,
                    old(self).height as int,
                    old(self).stride as int,
                    old(self).depth as int,
                )
                &&& forall|y: int, x: int, k: int|
                    0 <= y < old(self).height && 0 <= x < old(self).width && 0 <= k < 4
                        ==> px@[#[trigger] out_pos(y, x, k, st as int)] as int == pixel_byte(
                        colors.colors@,
                        key_color,
                        final(self).cached_indices()->Some_0,
                        old(self).width as int,
                        x,
                        y,
                        k,
                    )
            },
    {
        let row_bytes = match self.width.checked_mul(4) {
            Some(n) => n,
            None => return Err(DecodeError::InvalidDimension),
        };
        let size = match row_bytes.checked_mul(self.height) {
            Some(n) => n,
            None => return Err(DecodeError::InvalidDimension),
        };
        let mut pixels: Vec<u8> = Vec::new();
        pixels.resize(size, 0u8);
        if self.height > 0 {
            assert((self.height - 1) * row_bytes + self.width * 4 == size) by (nonlinear_arith)
                requires
                    size == row_bytes * self.height,
                    row_bytes == self.width * 4,
            ;
        }
        match self.update_rgb32(&mut pixels, row_bytes, colors, key_color) {
            Ok(()) => Ok((pixels, row_bytes)),
            Err(e) => Err(e),
        }
    }

    /// Forgets the cached palette indices, so that the next conversion reads
    /// the planes again.
    pub fn invalidate_index_cache(&mut self)
        ensures
            final(self).width == old(self).width,
            final(self).height == old(self).height,
            final(self).depth == old(self).depth,
            final(self).stride == old(self).stride,
            final(self).planes == old(self).planes,
            final(self).cached_indices() is None,
    {
        self.index_cache.clear();
    }

    /// A bitmap of `depth` zero-filled planes, each row padded to a word.
    /// Sizes whose planes do not fit in memory are refused.
    pub fn build(width: usize, height: usize, depth: usize) -> (r: Result<BitMap, DecodeError>)
        ensures
            r is Ok <==> 1 <= depth <= 5 && width <= usize::MAX - 15 && row_stride(width) * height
                <= usize::MAX,
            r is Err ==> r == Err::<BitMap, DecodeError>(DecodeError::InvalidDimension),
            r matches Ok(b) ==> {
                &&& b.width == width && b.height == height && b.depth == depth
                &&& b.stride == row_stride(width)
                &&& b.plane_view().len() == depth
                &&& forall|p: int|
                    #![trigger b.plane_view()[p]]
                    0 <= p < depth ==> b.plane_view()[p] == Seq::new(
                        (b.stride * height) as nat,
                        |i: int| 0u8,
                    )
                &&& b.cached_indices() is None
            },
    {
        if depth < 1 || depth > 5 {
            return Err(DecodeError::InvalidDimension);
        }
        if width > usize::MAX - 15 {
            return Err(DecodeError::InvalidDimension);
        }
        let stride = ((width + 15) >> 3) & !1usize;
        let plane_size = match stride.checked_mul(height) {
            Some(n) => n,
            None => return Err(DecodeError::InvalidDimension),
        };
        let mut planes: Vec<Vec<u8>> = Vec::with_capacity(depth);
        let mut p: usize = 0;
        while p < depth
            invariant
                p <= depth,
                planes@.len() == p,
                forall|q: int|
                    #![trigger planes@[q]]
                    0 <= q < p ==> planes@[q]@ == Seq::new(plane_size as nat, |i: int| 0u8),
            decreases depth - p,
        {
            let mut plane: Vec<u8> = Vec::new();
            plane.resize(plane_size, 0u8);
            assert(plane@ == Seq::new(plane_size as nat, |i: int| 0u8));
            planes.push(plane);
            p = p + 1;
        }
        let b = BitMap { width, height, depth, stride, planes, index_cache: IndexCache::new() };
        assert(b.plane_view().len() == depth);
        Ok(b)
    }

    /// A bitmap whose planes follow one another in `data`, `stride * height`
    /// bytes each.
    pub fn with_data(data: Vec<u8>, width: usize, height: usize, depth: usize, stride: usize) -> (r:
        Result<BitMap, DecodeError>)
        ensures
            !(1 <= depth <= 5) ==> r == Err::<BitMap, DecodeError>(DecodeError::InvalidDimension),
            1 <= depth <= 5 && data@.len() < depth * stride * height ==> r == Err::<
                BitMap,
                DecodeError,
            >(DecodeError::Truncated),
            1 <= depth <= 5 && data@.len() >= depth * stride * height ==> r is Ok,
            r matches Ok(b) ==> {
                &&& b.width == width && b.height == height && b.depth == depth && b.stride == stride
                &&& b.plane_view() == contiguous_planes(data@, depth as int, stride * height)
                &&& b.cached_indices() is None
            },
    {
        if depth < 1 || depth > 5 {
            return Err(DecodeError::InvalidDimension);
        }
        let dlen = data.len();
        let plane_size = match stride.checked_mul(height) {
            Some(n) => n,
            None => {
                assert(depth * stride * height >= stride * height) by (nonlinear_arith)
                    requires
                        depth >= 1,
                        stride * height >= 0,
                ;
                return Err(DecodeError::Truncated);
            },
        };
        let per_plane = data.len() / depth;
        if per_plane < plane_size {
            assert(data@.len() < depth * plane_size) by (nonlinear_arith)
                requires
                    per_plane == data@.len() as int / depth as int,
                    per_plane < plane_size,
                    depth >= 1,
            ;
            assert(depth * stride * height == depth * (stride * height)) by (nonlinear_arith);
            return Err(DecodeError::Truncated);
        }
        assert(depth * plane_size <= data@.len()) by (nonlinear_arith)
            requires
                per_plane == data@.len() as int / depth as int,
                per_plane >= plane_size,
                depth >= 1,
        ;
        assert(depth * stride * height == depth * (stride * height)) by (nonlinear_arith);
        let mut planes: Vec<Vec<u8>> = Vec::with_capacity(depth);
        let mut p: usize = 0;
        while p < depth
            invariant
                p <= depth,
                plane_size == stride * height,
                depth * plane_size <= data@.len(),
                dlen == data@.len(),
                planes@.len() == p,
                forall|q: int|
                    #![trigger planes@[q]]
                    0 <= q < p ==> planes@[q]@ == data@.subrange(
                        q * plane_size,
                        q * plane_size + plane_size,
                    ),
            decreases depth - p,
        {
            assert(p * plane_size + plane_size <= depth * plane_size) by (nonlinear_arith)
                requires
                    p < depth,
                    plane_size >= 0,
            ;
            assert(p * plane_size <= depth * plane_size) by (nonlinear_arith)
                requires
                    p < depth,
                    plane_size >= 0,
            ;
            let start = p * plane_size;
            let plane = copy_bytes(&data, start, plane_size);
            planes.push(plane);
            p = p + 1;
        }
        let b = BitMap { width, height, depth, stride, planes, index_cache: IndexCache::new() };
        assert(b.plane_view() == contiguous_planes(data@, depth as int, stride * height));
        Ok(b)
    }

    /// A bitmap whose rows are interleaved in `data`: row 0 of every plane,
    /// then row 1 of every plane, and so on, `stride` bytes each.
    pub fn with_interleaved_data(
        data: Vec<u8>,
        width: usize,
        height: usize,
        depth: usize,
        stride: usize,
    ) -> (r: Result<BitMap, DecodeError>)
        ensures
            !(1 <= depth <= 5) ==> r == Err::<BitMap, DecodeError>(DecodeError::InvalidDimension),
            1 <= depth <= 5 && data@.len() < depth * stride * height ==> r == Err::<
                BitMap,
                DecodeError,
            >(DecodeError::Truncated),
            1 <= depth <= 5 && data@.len() >= depth * stride * height ==> r is Ok,
            r matches Ok(b) ==> {
                &&& b.width == width && b.height == height && b.depth == depth && b.stride == stride
                &&& b.plane_view() == interleaved_planes(
                    data@,
                    depth as int,
                    stride as int,
                    height as nat,
                )
                &&& b.cached_indices() is None
            },
    {
        if depth < 1 || depth > 5 {
            return Err(DecodeError::InvalidDimension);
        }
        let dlen = data.len();
        let row_size = match stride.checked_mul(depth) {
            Some(n) => n,
            None => {
                assert(depth * stride * height >= stride * depth || height == 0) by (nonlinear_arith)
                    requires
                        depth >= 1,
                        stride >= 0,
                ;
                if height == 0 {
                    assert(depth * stride * height == 0) by (nonlinear_arith)
                        requires
                            height == 0,
                    ;
                    let b = BitMap {
                        width,
                        height,
                        depth,
                        stride,
                        planes: Self::empty_planes(depth),
                        index_cache: IndexCache::new(),
                    };
                    assert(b.plane_view() =~= interleaved_planes(
                        data@,
                        depth as int,
                        stride as int,
                        height as nat,
                    ));
                    return Ok(b);
                }
                return Err(DecodeError::Truncated);
            },
        };
        let per_row = if height > 0 { data.len() / height } else { 0 };
        if height > 0 && per_row < row_size {
            assert(data@.len() < depth * stride * height) by (nonlinear_arith)
                requires
                    per_row == data@.len() as int / height as int,
                    per_row < row_size,
                    row_size == stride * depth,
                    height >= 1,
            ;
            return Err(DecodeError::Truncated);
        }
        assert(row_size * height <= data@.len()) by (nonlinear_arith)
            requires
                height == 0 || (per_row == data@.len() as int / height as int && per_row >= row_size),
                row_size >= 0,
        ;
        assert(depth * stride * height == row_size * height) by (nonlinear_arith)
            requires
                row_size == stride * depth,
        ;
        let mut planes: Vec<Vec<u8>> = Vec::with_capacity(depth);
        let mut p: usize = 0;
        while p < depth
            invariant
                p <= depth,
                row_size == stride * depth,
                row_size * height <= data@.len(),
                dlen == data@.len(),
                planes@.len() == p,
                forall|q: int|
                    #![trigger planes@[q]]
                    0 <= q < p ==> planes@[q]@ == interleaved_plane(
                        data@,
                        depth as int,
                        stride as int,
                        q,
                        height as nat,
                    ),
            decreases depth - p,
        {
            let mut plane: Vec<u8> = Vec::new();
            let mut y: usize = 0;
            while y < height
                invariant
                    p < depth,
                    y <= height,
                    row_size == stride * depth,
                    row_size * height <= data@.len(),
                    dlen == data@.len(),
                    plane@ == interleaved_plane(data@, depth as int, stride as int, p as int, y as nat),
                decreases height - y,
            {
                assert(y * row_size + p * stride + stride <= row_size * height) by (nonlinear_arith)
                    requires
                        p < depth,
                        y < height,
                        row_size == stride * depth,
                ;
                assert(y * row_size + p * stride == (y * depth + p) * stride) by (nonlinear_arith)
                    requires
                        row_size == stride * depth,
                ;
                assert(0 <= p * stride <= y * row_size + p * stride) by (nonlinear_arith)
                    requires
                        y >= 0,
                        row_size >= 0,
                        p >= 0,
                        stride >= 0,
                ;
                let start = y * row_size + p * stride;
                let mut row = copy_bytes(&data, start, stride);
                plane.append(&mut row);
                y = y + 1;
            }
            planes.push(plane);
            p = p + 1;
        }
        let b = BitMap { width, height, depth, stride, planes, index_cache: IndexCache::new() };
        assert(b.plane_view() =~= interleaved_planes(data@, depth as int, stride as int, height as nat));
        Ok(b)
    }

    fn empty_planes(depth: usize) -> (r: Vec<Vec<u8>>)
        ensures
            r@.len() == depth,
            forall|q: int| 0 <= q < depth ==> (#[trigger] r@[q])@ == Seq::<u8>::empty(),
    {
        let mut planes: Vec<Vec<u8>> = Vec::new();
        let mut p: usize = 0;
        while p < depth
            invariant
                p <= depth,
                planes@.len() == p,
                forall|q: int| 0 <= q < p ==> (#[trigger] planes@[q])@ == Seq::<u8>::empty(),
            decreases depth - p,
        {
            planes.push(Vec::new());
            p = p + 1;
        }
        planes
    }
}

} // verus!
