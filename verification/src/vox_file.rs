//! The voxel file format: a header and four chunks of four-byte words in
//! little-endian order.

use vstd::prelude::*;
use crate::vox::{Rgba, Vox, VoxModel, Voxel, MAX_VOXELS, VERSION};

verus! {

/// The chunks of a voxel file, in the order in which a file holds them.
#[derive(Debug, PartialEq, Eq, Clone, Copy, Structural)]
pub enum Chunk {
    Main,
    Size,
    Xyzi,
    Rgba,
}

/// Why a sequence of bytes is not a voxel file.
#[derive(Debug, PartialEq, Eq, Clone, Copy, Structural)]
pub enum VoxError {
    /// The bytes end before the file does.
    Truncated,
    /// The bytes do not begin with `VOX `.
    UnsupportedFormat,
    /// The version is not 150.
    UnsupportedVersion,
    /// The tag of the given chunk is not where it belongs.
    BadChunk(Chunk),
    /// The number of voxels is negative or more than a file can hold.
    InvalidCount,
    /// A size is negative or above 256.
    InvalidSize,
    /// A voxel lies outside the grid.
    InvalidVoxel,
}

/// Number of words before the voxels: the tag of the file and its version,
/// the heads of the chunks `MAIN`, `SIZE` and `XYZI`, the three sizes and the
/// number of voxels.
pub const HEADER_WORDS: usize = 15;

/// Number of words after the voxels: the head of the chunk `RGBA`, 255
/// colours and one unused word.
pub const TRAILER_WORDS: usize = 259;

/// The four bytes `VOX ` that a file begins with.
pub open spec fn spec_vox_tag() -> Seq<u8> {
    seq![86u8, 79u8, 88u8, 32u8]
}

impl Chunk {
    /// The four bytes that the chunk begins with: its name in capitals.
    pub open spec fn spec_tag(self) -> Seq<u8> {
        match self {
            Chunk::Main => seq![77u8, 65u8, 73u8, 78u8],
            Chunk::Size => seq![83u8, 73u8, 90u8, 69u8],
            Chunk::Xyzi => seq![88u8, 89u8, 90u8, 73u8],
            Chunk::Rgba => seq![82u8, 71u8, 66u8, 65u8],
        }
    }

    /// Returns the four bytes that the chunk begins with.
    pub fn tag(self) -> (r: [u8; 4])
        ensures
            r@ == self.spec_tag(),
    {
        let r: [u8; 4] = match self {
            Chunk::Main => [77u8, 65u8, 73u8, 78u8],
            Chunk::Size => [83u8, 73u8, 90u8, 69u8],
            Chunk::Xyzi => [88u8, 89u8, 90u8, 73u8],
            Chunk::Rgba => [82u8, 71u8, 66u8, 65u8],
        };
        assert(r@ =~= self.spec_tag());
        r
    }
}

/// The number that the four bytes of `word` stand for: a 32-bit integer in
/// two's complement, least significant byte first.
pub open spec fn spec_int(word: Seq<u8>) -> int {
    let unsigned = word[0] as int + 256 * (word[1] as int) + 65536 * (word[2] as int) + 16777216
        * (word[3] as int);
    if unsigned < 0x8000_0000 {
        unsigned
    } else {
        unsigned - 0x1_0000_0000
    }
}

/// The four bytes that stand for the 32-bit integer `v`.
pub open spec fn spec_int_word(v: int) -> Seq<u8> {
    let unsigned = if v >= 0 {
        v
    } else {
        v + 0x1_0000_0000
    };
    seq![
        (unsigned % 256) as u8,
        ((unsigned / 256) % 256) as u8,
        ((unsigned / 65536) % 256) as u8,
        ((unsigned / 16777216) % 256) as u8,
    ]
}

/// The voxel that the four bytes of `word` stand for.
pub open spec fn spec_voxel(word: Seq<u8>) -> Voxel {
    Voxel { x: word[0], y: word[1], z: word[2], i: word[3] }
}

/// The four bytes that stand for the voxel `v`.
pub open spec fn spec_voxel_word(v: Voxel) -> Seq<u8> {
    seq![v.x, v.y, v.z, v.i]
}

/// The colour that the four bytes of `word` stand for.
pub open spec fn spec_rgba(word: Seq<u8>) -> Rgba {
    Rgba { r: word[0], g: word[1], b: word[2], a: word[3] }
}

/// The four bytes that stand for the colour `c`.
pub open spec fn spec_rgba_word(c: Rgba) -> Seq<u8> {
    seq![c.r, c.g, c.b, c.a]
}

/// The `k`-th word of `bytes`.
pub open spec fn spec_word(bytes: Seq<u8>, k: int) -> Seq<u8> {
    bytes.subrange(4 * k, 4 * k + 4)
}

/// Whether `bytes` holds its `k`-th word in full.
pub open spec fn has_word(bytes: Seq<u8>, k: int) -> bool {
    0 <= k && 4 * k + 4 <= bytes.len()
}

/// The words that a file of the grid `m` begins with.
pub open spec fn spec_header(m: VoxModel) -> Seq<Seq<u8>> {
    seq![
        spec_vox_tag(),
        spec_int_word(VERSION as int),
        Chunk::Main.spec_tag(),
        spec_int_word(0),
        spec_int_word(1076 + 4 * (m.voxels.len() as int)),
        Chunk::Size.spec_tag(),
        spec_int_word(12),
        spec_int_word(0),
        spec_int_word(m.x_size),
        spec_int_word(m.y_size),
        spec_int_word(m.z_size),
        Chunk::Xyzi.spec_tag(),
        spec_int_word(4 + 4 * (m.voxels.len() as int)),
        spec_int_word(0),
        spec_int_word(m.voxels.len() as int),
    ]
}

/// The `k`-th word of the file of the grid `m`: after the header come the
/// voxels, then the head of the chunk `RGBA`, the colours 1 to 255 of the
/// palette, and one unused word of zeros.
pub open spec fn spec_file_word(m: VoxModel, k: int) -> Seq<u8> {
    let n = m.voxels.len() as int;
    if k < 15 {
        spec_header(m)[k]
    } else if k < 15 + n {
        spec_voxel_word(m.voxels[k - 15])
    } else if k == 15 + n {
        Chunk::Rgba.spec_tag()
    } else if k == 16 + n {
        spec_int_word(1024)
    } else if k == 17 + n {
        spec_int_word(0)
    } else if k < 273 + n {
        spec_rgba_word(m.palette[k - 17 - n])
    } else {
        spec_int_word(0)
    }
}

/// The words of the file of the grid `m`.
pub open spec fn spec_words(m: VoxModel) -> Seq<Seq<u8>> {
    Seq::new(274 + m.voxels.len(), |k: int| spec_file_word(m, k))
}

/// The bytes of the words `words`, one word after the other.
pub open spec fn spec_flat(words: Seq<Seq<u8>>) -> Seq<u8> {
    Seq::new(4 * words.len(), |i: int| words[i / 4][i % 4])
}

/// The bytes of the file of the grid `m`.
pub open spec fn spec_to_bytes(m: VoxModel) -> Seq<u8> {
    spec_flat(spec_words(m))
}

/// The grid that the words of `bytes` describe, whether or not it is a valid
/// one: sizes in the words 8 to 10, the number of voxels in word 14, the
/// voxels from word 15 on, and the colours 1 to 255 of the palette after the
/// head of the chunk `RGBA`.
pub open spec fn spec_read(bytes: Seq<u8>) -> VoxModel {
    let n = spec_int(spec_word(bytes, 14));
    VoxModel {
        x_size: spec_int(spec_word(bytes, 8)),
        y_size: spec_int(spec_word(bytes, 9)),
        z_size: spec_int(spec_word(bytes, 10)),
        voxels: Seq::new(n as nat, |k: int| spec_voxel(spec_word(bytes, 15 + k))),
        palette: Seq::new(
            256,
            |i: int|
                if i == 0 {
                    Rgba { r: 0, g: 0, b: 0, a: 0 }
                } else {
                    spec_rgba(spec_word(bytes, 17 + n + i))
                },
        ),
    }
}

/// Whether the sizes of the grid are between 0 and 256.
pub open spec fn sizes_valid(m: VoxModel) -> bool {
    0 <= m.x_size <= 256 && 0 <= m.y_size <= 256 && 0 <= m.z_size <= 256
}

/// What reading `bytes` as a voxel file gives: the grid, or the first thing
/// that is wrong with the bytes. The sizes of the chunks and whatever follows
/// the palette are not looked at.
pub open spec fn spec_parse(bytes: Seq<u8>) -> Result<VoxModel, VoxError> {
    let n = spec_int(spec_word(bytes, 14));
    if !has_word(bytes, 0) {
        Err(VoxError::Truncated)
    } else if spec_word(bytes, 0) != spec_vox_tag() {
        Err(VoxError::UnsupportedFormat)
    } else if !has_word(bytes, 1) {
        Err(VoxError::Truncated)
    } else if spec_int(spec_word(bytes, 1)) != VERSION {
        Err(VoxError::UnsupportedVersion)
    } else if !has_word(bytes, 2) {
        Err(VoxError::Truncated)
    } else if spec_word(bytes, 2) != Chunk::Main.spec_tag() {
        Err(VoxError::BadChunk(Chunk::Main))
    } else if !has_word(bytes, 5) {
        Err(VoxError::Truncated)
    } else if spec_word(bytes, 5) != Chunk::Size.spec_tag() {
        Err(VoxError::BadChunk(Chunk::Size))
    } else if !has_word(bytes, 11) {
        Err(VoxError::Truncated)
    } else if spec_word(bytes, 11) != Chunk::Xyzi.spec_tag() {
        Err(VoxError::BadChunk(Chunk::Xyzi))
    } else if !has_word(bytes, 14) {
        Err(VoxError::Truncated)
    } else if n < 0 || n > MAX_VOXELS {
        Err(VoxError::InvalidCount)
    } else if !has_word(bytes, 15 + n) {
        Err(VoxError::Truncated)
    } else if spec_word(bytes, 15 + n) != Chunk::Rgba.spec_tag() {
        Err(VoxError::BadChunk(Chunk::Rgba))
    } else if !has_word(bytes, 272 + n) {
        Err(VoxError::Truncated)
    } else if !sizes_valid(spec_read(bytes)) {
        Err(VoxError::InvalidSize)
    } else if !spec_read(bytes).wf() {
        Err(VoxError::InvalidVoxel)
    } else {
        Ok(spec_read(bytes))
    }
}

/// A 32-bit integer is the number that its four bytes stand for.
pub proof fn lemma_int_round_trip(v: int)
    requires
        -0x8000_0000 <= v < 0x8000_0000,
    ensures
        spec_int_word(v).len() == 4,
        spec_int(spec_int_word(v)) == v,
{
    let unsigned = if v >= 0 {
        v
    } else {
        v + 0x1_0000_0000
    };
    let b0 = unsigned % 256;
    let b1 = (unsigned / 256) % 256;
    let b2 = (unsigned / 65536) % 256;
    let b3 = (unsigned / 16777216) % 256;
    assert(unsigned == b0 + 256 * b1 + 65536 * b2 + 16777216 * b3) by {
        assert(unsigned / 65536 == (unsigned / 256) / 256);
        assert(unsigned / 16777216 == (unsigned / 65536) / 256);
        assert(unsigned / 16777216 < 256);
    }
}

/// Every word of the file of a grid has four bytes, and the bytes of the
/// file hold the words one after the other.
pub proof fn lemma_file_words(m: VoxModel, k: int)
    requires
        m.palette.len() == 256,
        0 <= k < 274 + m.voxels.len(),
    ensures
        spec_file_word(m, k).len() == 4,
        has_word(spec_to_bytes(m), k),
        spec_word(spec_to_bytes(m), k) == spec_file_word(m, k),
{
    let words = spec_words(m);
    let bytes = spec_to_bytes(m);
    assert(spec_file_word(m, k).len() == 4) by {
        if k < 15 {
            assert(spec_header(m)[k].len() == 4);
        }
    }
    assert(spec_word(bytes, k) =~= spec_file_word(m, k)) by {
        assert forall|i: int| 0 <= i < 4 implies spec_word(bytes, k)[i] == spec_file_word(m, k)[i] by {
            assert((4 * k + i) / 4 == k && (4 * k + i) % 4 == i);
            assert(bytes[4 * k + i] == words[k][i]);
        }
    }
}

/// Reading the file of a valid grid gives the grid back.
pub proof fn lemma_round_trip(m: VoxModel)
    requires
        m.wf(),
    ensures
        spec_parse(spec_to_bytes(m)) == Ok::<VoxModel, VoxError>(m),
{
    let bytes = spec_to_bytes(m);
    let n = m.voxels.len() as int;
    lemma_file_words(m, 0);
    lemma_file_words(m, 1);
    lemma_file_words(m, 2);
    lemma_file_words(m, 5);
    lemma_file_words(m, 8);
    lemma_file_words(m, 9);
    lemma_file_words(m, 10);
    lemma_file_words(m, 11);
    lemma_file_words(m, 14);
    lemma_file_words(m, 15 + n);
    lemma_file_words(m, 272 + n);
    lemma_int_round_trip(VERSION as int);
    lemma_int_round_trip(m.x_size);
    lemma_int_round_trip(m.y_size);
    lemma_int_round_trip(m.z_size);
    lemma_int_round_trip(n);
    let read = spec_read(bytes);
    assert(read.voxels =~= m.voxels) by {
        assert forall|k: int| 0 <= k < n implies read.voxels[k] == m.voxels[k] by {
            lemma_file_words(m, 15 + k);
        }
    }
    assert(read.palette =~= m.palette) by {
        assert forall|i: int| 0 <= i < 256 implies read.palette[i] == m.palette[i] by {
            if i > 0 {
                lemma_file_words(m, 17 + n + i);
            }
        }
    }
    assert(read == m);
}

/// The bytes of the first `k + 1` words of a file are the bytes of the first
/// `k` words followed by the `k`-th word.
proof fn lemma_flat_push(m: VoxModel, k: int)
    requires
        m.palette.len() == 256,
        0 <= k < 274 + m.voxels.len(),
    ensures
        spec_flat(spec_words(m).subrange(0, k + 1)) == spec_flat(spec_words(m).subrange(0, k))
            + spec_file_word(m, k),
        spec_file_word(m, k).len() == 4,
{
    lemma_file_words(m, k);
    let shorter = spec_words(m).subrange(0, k);
    let longer = spec_words(m).subrange(0, k + 1);
    let word = spec_file_word(m, k);
    assert(spec_flat(longer) =~= spec_flat(shorter) + word) by {
        assert forall|i: int| 0 <= i < 4 * (k + 1) implies spec_flat(longer)[i] == (spec_flat(
            shorter,
        ) + word)[i] by {
            if i < 4 * k {
                assert(i / 4 < k);
                assert(longer[i / 4] == shorter[i / 4]);
            } else {
                assert(i / 4 == k && i % 4 == i - 4 * k);
            }
        }
    }
}

/// Returns whether `bytes` holds its `k`-th word in full.
fn holds_word(bytes: &[u8], k: usize) -> (r: bool)
    ensures
        r == has_word(bytes@, k as int),
{
    bytes.len() >= 4 && k <= (bytes.len() - 4) / 4
}

/// Returns the `k`-th word of `bytes` as a tag.
fn read_tag(bytes: &[u8], k: usize) -> (r: [u8; 4])
    requires
        has_word(bytes@, k as int),
    ensures
        r@ == spec_word(bytes@, k as int),
{
    let len = bytes.len();
    assert(4 * k + 4 <= len);
    let at = 4 * k;
    let r: [u8; 4] = [bytes[at], bytes[at + 1], bytes[at + 2], bytes[at + 3]];
    assert(r@ =~= spec_word(bytes@, k as int));
    r
}

/// Returns whether the `k`-th word of `bytes` is `tag`.
fn is_tag(bytes: &[u8], k: usize, tag: [u8; 4]) -> (r: bool)
    requires
        has_word(bytes@, k as int),
    ensures
        r == (spec_word(bytes@, k as int) == tag@),
{
    let word = read_tag(bytes, k);
    let r = word[0] == tag[0] && word[1] == tag[1] && word[2] == tag[2] && word[3] == tag[3];
    proof {
        if r {
            assert(word@ =~= tag@);
        } else {
            assert(word@[0] != tag@[0] || word@[1] != tag@[1] || word@[2] != tag@[2] || word@[3]
                != tag@[3]);
        }
    }
    r
}

/// Returns the `k`-th word of `bytes` as a 32-bit integer.
fn read_int(bytes: &[u8], k: usize) -> (r: i32)
    requires
        has_word(bytes@, k as int),
    ensures
        r == spec_int(spec_word(bytes@, k as int)),
{
    let word = read_tag(bytes, k);
    let unsigned: u32 = word[0] as u32 + 256 * (word[1] as u32) + 65536 * (word[2] as u32)
        + 16777216 * (word[3] as u32);
    if unsigned < 0x8000_0000 {
        unsigned as i32
    } else {
        (unsigned - 0x8000_0000) as i32 - 0x4000_0000 - 0x4000_0000
    }
}

/// Returns the `k`-th word of `bytes` as a voxel.
fn read_xyzi(bytes: &[u8], k: usize) -> (r: Voxel)
    requires
        has_word(bytes@, k as int),
    ensures
        r == spec_voxel(spec_word(bytes@, k as int)),
{
    let word = read_tag(bytes, k);
    Voxel { x: word[0], y: word[1], z: word[2], i: word[3] }
}

/// Returns the `k`-th word of `bytes` as a colour.
fn read_rgba(bytes: &[u8], k: usize) -> (r: Rgba)
    requires
        has_word(bytes@, k as int),
    ensures
        r == spec_rgba(spec_word(bytes@, k as int)),
{
    let word = read_tag(bytes, k);
    Rgba { r: word[0], g: word[1], b: word[2], a: word[3] }
}

/// Appends a tag to `out`.
fn write_tag(tag: [u8; 4], out: &mut Vec<u8>)
    ensures
        final(out)@ == old(out)@ + tag@,
{
    out.push(tag[0]);
    out.push(tag[1]);
    out.push(tag[2]);
    out.push(tag[3]);
    assert(out@ =~= old(out)@ + tag@);
}

/// Appends a 32-bit integer to `out`.
fn write_int(i: i32, out: &mut Vec<u8>)
    ensures
        final(out)@ == old(out)@ + spec_int_word(i as int),
{
    let unsigned: u32 = if i >= 0 {
        i as u32
    } else {
        (i + 0x4000_0000 + 0x4000_0000) as u32 + 0x8000_0000
    };
    out.push((unsigned % 256) as u8);
    out.push(((unsigned / 256) % 256) as u8);
    out.push(((unsigned / 65536) % 256) as u8);
    out.push(((unsigned / 16777216) % 256) as u8);
    assert(out@ =~= old(out)@ + spec_int_word(i as int));
}

/// Appends a voxel to `out`.
fn write_xyzi(xyzi: Voxel, out: &mut Vec<u8>)
    ensures
        final(out)@ == old(out)@ + spec_voxel_word(xyzi),
{
    out.push(xyzi.x);
    out.push(xyzi.y);
    out.push(xyzi.z);
    out.push(xyzi.i);
    assert(out@ =~= old(out)@ + spec_voxel_word(xyzi));
}

/// Appends a colour to `out`.
fn write_rgba(rgba: Rgba, out: &mut Vec<u8>)
    ensures
        final(out)@ == old(out)@ + spec_rgba_word(rgba),
{
    out.push(rgba.r);
    out.push(rgba.g);
    out.push(rgba.b);
    out.push(rgba.a);
    assert(out@ =~= old(out)@ + spec_rgba_word(rgba));
}

impl Vox {
    /// Reads a grid from the bytes of a voxel file.
    pub fn open(bytes: &[u8]) -> (r: Result<Vox, VoxError>)
        ensures
            r matches Ok(vox) ==> vox.wf() && spec_parse(bytes@) == Ok::<VoxModel, VoxError>(vox@),
            r matches Err(e) ==> spec_parse(bytes@) == Err::<VoxModel, VoxError>(e),
    {
        if !holds_word(bytes, 0) {
            return Err(VoxError::Truncated);
        }
        let vox_tag: [u8; 4] = [86u8, 79u8, 88u8, 32u8];
        assert(vox_tag@ =~= spec_vox_tag());
        if !is_tag(bytes, 0, vox_tag) {
            return Err(VoxError::UnsupportedFormat);
        }
        if !holds_word(bytes, 1) {
            return Err(VoxError::Truncated);
        }
        if read_int(bytes, 1) != VERSION {
            return Err(VoxError::UnsupportedVersion);
        }
        if !holds_word(bytes, 2) {
            return Err(VoxError::Truncated);
        }
        if !is_tag(bytes, 2, Chunk::Main.tag()) {
            return Err(VoxError::BadChunk(Chunk::Main));
        }
        if !holds_word(bytes, 5) {
            return Err(VoxError::Truncated);
        }
        if !is_tag(bytes, 5, Chunk::Size.tag()) {
            return Err(VoxError::BadChunk(Chunk::Size));
        }
        if !holds_word(bytes, 11) {
            return Err(VoxError::Truncated);
        }
        if !is_tag(bytes, 11, Chunk::Xyzi.tag()) {
            return Err(VoxError::BadChunk(Chunk::Xyzi));
        }
        if !holds_word(bytes, 14) {
            return Err(VoxError::Truncated);
        }
        let x_size = read_int(bytes, 8);
        let y_size = read_int(bytes, 9);
        let z_size = read_int(bytes, 10);
        let voxel_count = read_int(bytes, 14);
        if voxel_count < 0 || voxel_count as usize > MAX_VOXELS {
            return Err(VoxError::InvalidCount);
        }
        let count = voxel_count as usize;
        if !holds_word(bytes, 15 + count) {
            return Err(VoxError::Truncated);
        }
        if !is_tag(bytes, 15 + count, Chunk::Rgba.tag()) {
            return Err(VoxError::BadChunk(Chunk::Rgba));
        }
        if !holds_word(bytes, 272 + count) {
            return Err(VoxError::Truncated);
        }
        let ghost read = spec_read(bytes@);
        let mut xyzis: Vec<Voxel> = Vec::new();
        for k in 0..count
            invariant
                has_word(bytes@, 272 + count),
                count <= MAX_VOXELS,
                read == spec_read(bytes@),
                read.voxels.len() == count,
                xyzis@.len() == k,
                forall|j: int| 0 <= j < k ==> xyzis@[j] == read.voxels[j],
        {
            xyzis.push(read_xyzi(bytes, 15 + k));
        }
        let mut palette: [Rgba; 256] = [Rgba { r: 0, g: 0, b: 0, a: 0 };256];
        for i in 1..256usize
            invariant
                has_word(bytes@, 272 + count),
                count <= MAX_VOXELS,
                read == spec_read(bytes@),
                count == spec_int(spec_word(bytes@, 14)),
                palette@.len() == 256,
                palette@[0] == (Rgba { r: 0, g: 0, b: 0, a: 0 }),
                forall|j: int| 1 <= j < i ==> palette@[j] == read.palette[j],
        {
            palette[i] = read_rgba(bytes, 17 + count + i);
        }
        proof {
            assert(xyzis@ =~= read.voxels);
            assert(palette@ =~= read.palette);
        }
        if x_size < 0 || x_size > 256 || y_size < 0 || y_size > 256 || z_size < 0 || z_size > 256 {
            return Err(VoxError::InvalidSize);
        }
        match Vox::new(x_size, y_size, z_size, xyzis, palette) {
            Some(vox) => Ok(vox),
            None => Err(VoxError::InvalidVoxel),
        }
    }

    /// Returns the bytes of the voxel file of the grid.
    pub fn write(&self) -> (r: Vec<u8>)
        ensures
            r@ == spec_to_bytes(self@),
    {
        proof {
            use_type_invariant(self);
        }
        let ghost m = self@;
        let ghost words = spec_words(m);
        let voxels = self.voxels();
        let palette = self.palette();
        let count = voxels.len();
        let voxel_count = count as i32;
        let mut out: Vec<u8> = Vec::new();
        assert(out@ =~= spec_flat(words.subrange(0, 0)));
        let vox_tag: [u8; 4] = [86u8, 79u8, 88u8, 32u8];
        assert(vox_tag@ =~= spec_vox_tag());
        write_tag(vox_tag, &mut out);
        proof {
            lemma_flat_push(m, 0);
        }
        write_int(VERSION, &mut out);
        proof {
            lemma_flat_push(m, 1);
        }
        write_tag(Chunk::Main.tag(), &mut out);
        proof {
            lemma_flat_push(m, 2);
        }
        write_int(0, &mut out);
        proof {
            lemma_flat_push(m, 3);
        }
        write_int(1076 + 4 * voxel_count, &mut out);
        proof {
            lemma_flat_push(m, 4);
        }
        write_tag(Chunk::Size.tag(), &mut out);
        proof {
            lemma_flat_push(m, 5);
        }
        write_int(12, &mut out);
        proof {
            lemma_flat_push(m, 6);
        }
        write_int(0, &mut out);
        proof {
            lemma_flat_push(m, 7);
        }
        write_int(self.x_size(), &mut out);
        proof {
            lemma_flat_push(m, 8);
        }
        write_int(self.y_size(), &mut out);
        proof {
            lemma_flat_push(m, 9);
        }
        write_int(self.z_size(), &mut out);
        proof {
            lemma_flat_push(m, 10);
        }
        write_tag(Chunk::Xyzi.tag(), &mut out);
        proof {
            lemma_flat_push(m, 11);
        }
        write_int(4 + 4 * voxel_count, &mut out);
        proof {
            lemma_flat_push(m, 12);
        }
        write_int(0, &mut out);
        proof {
            lemma_flat_push(m, 13);
        }
        write_int(voxel_count, &mut out);
        proof {
            lemma_flat_push(m, 14);
        }
        for k in 0..count
            invariant
                m == self@,
                m.wf(),
                words == spec_words(m),
                voxels@ == m.voxels,
                count == m.voxels.len(),
                out@ == spec_flat(words.subrange(0, 15 + k)),
        {
            write_xyzi(voxels[k], &mut out);
            proof {
                lemma_flat_push(m, 15 + k);
            }
        }
        write_tag(Chunk::Rgba.tag(), &mut out);
        proof {
            lemma_flat_push(m, 15 + count);
        }
        write_int(1024, &mut out);
        proof {
            lemma_flat_push(m, 16 + count);
        }
        write_int(0, &mut out);
        proof {
            lemma_flat_push(m, 17 + count);
        }
        for i in 1..256usize
            invariant
                m == self@,
                m.wf(),
                words == spec_words(m),
                palette@ == m.palette,
                count == m.voxels.len(),
                out@ == spec_flat(words.subrange(0, 17 + count + i)),
        {
            write_rgba(palette[i], &mut out);
            proof {
                lemma_flat_push(m, 17 + count + i);
            }
        }
        write_int(0, &mut out);
        proof {
            lemma_flat_push(m, 273 + count);
            assert(words.subrange(0, 274 + count) =~= words);
        }
        out
    }
}

} // verus!
