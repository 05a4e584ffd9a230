//! The binary container: a fixed prologue, a JSON chunk and a binary chunk.

use vstd::prelude::*;

verus! {

/// Why a container or its document could not be loaded.
#[derive(Debug, Clone, Copy, PartialEq, Eq, Structural)]
pub enum LoadError {
    /// A magic tag, version or chunk tag does not match.
    Format,
    /// The input ends before a declared length is satisfied.
    Truncated,
    /// The document lacks a required field, has one of the wrong shape, or
    /// refers to an index out of range.
    Schema,
}

/// The two chunks of a container: the JSON text and the binary blob.
pub struct Chunks {
    pub json: Vec<u8>,
    pub blob: Vec<u8>,
}

/// Length of the fixed prologue: magic, version, total length and the
/// header of the JSON chunk.
pub const PROLOGUE_LEN: usize = 20;

/// The JSON chunk's type tag.
pub open spec fn json_tag() -> Seq<u8> {
    seq![0x4a, 0x53, 0x4f, 0x4e]
}

/// The binary chunk's type tag.
pub open spec fn bin_tag() -> Seq<u8> {
    seq![0x42, 0x49, 0x4e, 0x00]
}

/// The value of the little-endian 32-bit word that starts at `at`.
pub open spec fn le_u32(bytes: Seq<u8>, at: int) -> nat {
    (bytes[at] as nat) + 256 * (bytes[at + 1] as nat) + 65536 * (bytes[at + 2] as nat)
        + 16777216 * (bytes[at + 3] as nat)
}

/// Reads the little-endian `u32` held by the first four bytes of `buf`.
pub fn u32_from_slice(buf: &[u8]) -> (r: u32)
    requires
        buf@.len() >= 4,
    ensures
        r as nat == le_u32(buf@, 0),
{
    let b0 = buf[0] as u32;
    let b1 = buf[1] as u32;
    let b2 = buf[2] as u32;
    let b3 = buf[3] as u32;
    assert(b0 | (b1 << 8u32) | (b2 << 16u32) | (b3 << 24u32) == b0 + 256 * b1 + 65536 * b2
        + 16777216 * b3) by (bit_vector)
        requires
            b0 < 256 && b1 < 256 && b2 < 256 && b3 < 256,
    ;
    b0 | (b1 << 8u32) | (b2 << 16u32) | (b3 << 24u32)
}

/// Whether the four bytes of `d` at `at` are `tag`.
pub open spec fn tag_at(d: Seq<u8>, at: int, tag: Seq<u8>) -> bool {
    d.subrange(at, at + 4) == tag
}

/// The chunks that a container holds, or the error that reading it meets.
/// Checks run in stream order: a short read fails as soon as it happens.
pub open spec fn container_spec(d: Seq<u8>, magic: Seq<u8>) -> Result<(Seq<u8>, Seq<u8>), LoadError> {
    if d.len() < 20 {
        Err(LoadError::Truncated)
    } else if !tag_at(d, 0, magic) || le_u32(d, 4) != 2 || !tag_at(d, 16, json_tag()) {
        Err(LoadError::Format)
    } else {
        let n0 = le_u32(d, 12) as int;
        if d.len() < 28 + n0 {
            Err(LoadError::Truncated)
        } else if !tag_at(d, 24 + n0, bin_tag()) {
            Err(LoadError::Format)
        } else {
            let n1 = le_u32(d, 20 + n0) as int;
            if d.len() < 28 + n0 + n1 {
                Err(LoadError::Truncated)
            } else {
                Ok((d.subrange(20, 20 + n0), d.subrange(28 + n0, 28 + n0 + n1)))
            }
        }
    }
}

/// The number of bytes that a well-formed container occupies at the start
/// of `d`.
pub open spec fn container_len(d: Seq<u8>) -> int {
    let n0 = le_u32(d, 12) as int;
    28 + n0 + le_u32(d, 20 + n0)
}

fn tag_matches(d: &[u8], at: usize, tag: &[u8; 4]) -> (r: bool)
    requires
        at + 4 <= d@.len(),
    ensures
        r == tag_at(d@, at as int, tag@),
{
    let ok = d[at] == tag[0] && d[at + 1] == tag[1] && d[at + 2] == tag[2] && d[at + 3] == tag[3];
    assert(ok == (d@.subrange(at as int, at + 4) =~= tag@));
    ok
}

fn copy_range(d: &[u8], from: usize, len: usize) -> (r: Vec<u8>)
    requires
        from + len <= d@.len(),
    ensures
        r@ == d@.subrange(from as int, from + len),
{
    let n = d.len();
    let mut out: Vec<u8> = Vec::with_capacity(len);
    let mut i: usize = 0;
    while i < len
        invariant
            n == d@.len(),
            from + len <= d@.len(),
            i <= len,
            out@ =~= d@.subrange(from as int, from + i),
        decreases len - i,
    {
        out.push(d[from + i]);
        i = i + 1;
    }
    out
}

/// Splits a container into its JSON chunk and its binary chunk. `magic` is
/// the tag that the first four bytes must hold.
pub fn read_container(data: &[u8], magic: &[u8; 4]) -> (r: Result<Chunks, LoadError>)
    ensures
        match (r, container_spec(data@, magic@)) {
            (Ok(c), Ok((j, b))) => c.json@ == j && c.blob@ == b,
            (Err(e), Err(f)) => e == f,
            _ => false,
        },
{
    let json_tag_bytes: [u8; 4] = [0x4a, 0x53, 0x4f, 0x4e];
    let bin_tag_bytes: [u8; 4] = [0x42, 0x49, 0x4e, 0x00];
    assert(json_tag_bytes@ =~= json_tag());
    assert(bin_tag_bytes@ =~= bin_tag());
    if data.len() < PROLOGUE_LEN {
        return Err(LoadError::Truncated);
    }
    let version = u32_from_slice(slice_from(data, 4));
    if !tag_matches(data, 0, magic) || version != 2 || !tag_matches(data, 16, &json_tag_bytes) {
        return Err(LoadError::Format);
    }
    let n0 = u32_from_slice(slice_from(data, 12)) as usize;
    if data.len() - 20 < n0 || data.len() - 20 - n0 < 8 {
        return Err(LoadError::Truncated);
    }
    let json = copy_range(data, 20, n0);
    let header = 20 + n0;
    if !tag_matches(data, header + 4, &bin_tag_bytes) {
        return Err(LoadError::Format);
    }
    let n1 = u32_from_slice(slice_from(data, header)) as usize;
    if data.len() - header - 8 < n1 {
        return Err(LoadError::Truncated);
    }
    let blob = copy_range(data, header + 8, n1);
    Ok(Chunks { json, blob })
}

fn slice_from(d: &[u8], at: usize) -> (r: &[u8])
    requires
        at <= d@.len(),
    ensures
        r@ == d@.subrange(at as int, d@.len() as int),
{
    let (_, tail) = d.split_at(at);
    tail
}

/// Cutting a well-formed container anywhere before its end makes reading
/// it fail with `LoadError::Truncated`: no prefix yields chunks.
pub proof fn lemma_truncated_prefix_fails(d: Seq<u8>, magic: Seq<u8>, k: int)
    requires
        container_spec(d, magic) is Ok,
        0 <= k < container_len(d),
    ensures
        container_spec(d.subrange(0, k), magic) == Err::<(Seq<u8>, Seq<u8>), LoadError>(LoadError::Truncated),
{
    let p = d.subrange(0, k);
    if k >= 20 {
        assert(p.subrange(0, 4) =~= d.subrange(0, 4));
        assert(p.subrange(16, 20) =~= d.subrange(16, 20));
        assert(le_u32(p, 4) == le_u32(d, 4));
        assert(le_u32(p, 12) == le_u32(d, 12));
        let n0 = le_u32(d, 12) as int;
        if k >= 28 + n0 {
            assert(p.subrange(24 + n0, 28 + n0) =~= d.subrange(24 + n0, 28 + n0));
            assert(le_u32(p, 20 + n0) == le_u32(d, 20 + n0));
        }
    }
}

} // verus!
