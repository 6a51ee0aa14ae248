//! Little-endian reads from the bundled canvas file, through a
//! `bytes::buf::Reader` over the file's bytes and its
//! `std::io::Read::read_exact`: a read fills its buffer completely or fails.

use vstd::prelude::*;

use crate::error::DecodeError;
use crate::text::{string_from_utf8_lossy, utf8_lossy};
use crate::wire::{le_u16, le_u32, le_u64};
use vstd::utf8::{decode_utf8, valid_utf8};

verus! {

#[verifier::external_type_specification]
#[verifier::external_body]
pub struct ExOutsideBytes(bytes::Bytes);

#[verifier::external_type_specification]
#[verifier::external_body]
#[verifier::reject_recursive_types(B)]
pub struct ExOutsideBufReader<B>(bytes::buf::Reader<B>);

/// The bytes that a `bytes` reader over a `Bytes` has not read yet.
pub uninterp spec fn reader_unread(r: bytes::buf::Reader<bytes::Bytes>) -> Seq<u8>;

/// Calls `Buf::reader` on `Bytes::from(data)`: a reader whose unread bytes
/// are `data`.
#[verifier::external_body]
fn outside_bytes_reader(data: Vec<u8>) -> (r: bytes::buf::Reader<bytes::Bytes>)
    ensures
        reader_unread(r) == data@,
{
    bytes::Buf::reader(bytes::Bytes::from(data))
}

/// Calls `Buf::remaining` on the reader's buffer: how many bytes are unread.
#[verifier::external_body]
fn outside_bytes_remaining(r: &bytes::buf::Reader<bytes::Bytes>) -> (n: usize)
    ensures
        n == reader_unread(*r).len(),
{
    bytes::Buf::remaining(r.get_ref())
}

/// Calls `std::io::Read::read_exact` with a buffer of `n` bytes. Its reads
/// from a `Bytes` copy as many bytes as are left, up to the buffer's size,
/// and never fail; so it fills the buffer with the next `n` bytes and
/// consumes them, or fails when fewer are left. How much a failed call has
/// consumed is left unsaid, as its documentation leaves it open.
#[verifier::external_body]
fn outside_read_exact(r: &mut bytes::buf::Reader<bytes::Bytes>, n: usize) -> (v: Option<Vec<u8>>)
    ensures
        reader_unread(*old(r)).len() >= n ==> (v matches Some(b) && b@ == reader_unread(
            *old(r),
        ).take(n as int) && reader_unread(*final(r)) == reader_unread(*old(r)).skip(n as int)),
        reader_unread(*old(r)).len() < n ==> v is None,
{
    let mut buffer = vec![0u8; n];
    match std::io::Read::read_exact(r, &mut buffer) {
        Ok(()) => Some(buffer),
        Err(_) => None,
    }
}

/// A reader over the bytes of a canvas file; its view is the bytes not read
/// yet.
pub struct CanvasReader {
    inner: bytes::buf::Reader<bytes::Bytes>,
}

impl View for CanvasReader {
    type V = Seq<u8>;

    closed spec fn view(&self) -> Seq<u8> {
        reader_unread(self.inner)
    }
}

impl CanvasReader {
    /// A reader over all of `data`.
    pub fn new(data: Vec<u8>) -> (r: CanvasReader)
        ensures
            r@ == data@,
    {
        CanvasReader { inner: outside_bytes_reader(data) }
    }

    /// How many bytes are left.
    pub fn remaining(&self) -> (n: usize)
        ensures
            n == self@.len(),
    {
        outside_bytes_remaining(&self.inner)
    }
}

/// What an exact read of `width` bytes decoded as `value` does: it succeeds
/// exactly when that many bytes are left, and then consumes them.
pub open spec fn exact_read_step<T>(
    before: Seq<u8>,
    after: Seq<u8>,
    width: nat,
    res: Result<T, DecodeError>,
    value: T,
) -> bool {
    if before.len() >= width {
        res == Ok::<T, DecodeError>(value) && after == before.skip(width as int)
    } else {
        res == Err::<T, DecodeError>(DecodeError::UnexpectedEof)
    }
}

fn read_exact(file: &mut CanvasReader, n: usize) -> (r: Result<Vec<u8>, DecodeError>)
    ensures
        old(file)@.len() >= n ==> (r matches Ok(v) && v@ == old(file)@.take(n as int)
            && final(file)@ == old(file)@.skip(n as int)),
        old(file)@.len() < n ==> r == Err::<Vec<u8>, DecodeError>(DecodeError::UnexpectedEof),
{
    match outside_read_exact(&mut file.inner, n) {
        Some(v) => Ok(v),
        None => Err(DecodeError::UnexpectedEof),
    }
}

/// Reads one byte.
pub fn read_u8(file: &mut CanvasReader) -> (r: Result<u8, DecodeError>)
    ensures
        exact_read_step(old(file)@, final(file)@, 1, r, old(file)@[0]),
{
    let buffer = match read_exact(file, 1) {
        Ok(v) => v,
        Err(e) => return Err(e),
    };
    Ok(buffer[0])
}

/// Reads a little-endian `u16`.
pub fn read_u16(file: &mut CanvasReader) -> (r: Result<u16, DecodeError>)
    ensures
        exact_read_step(old(file)@, final(file)@, 2, r, le_u16(old(file)@)),
{
    let b = match read_exact(file, 2) {
        Ok(v) => v,
        Err(e) => return Err(e),
    };
    proof {
        reveal(crate::wire::u16_from_be);
    }
    Ok(((b[1] as u16) << 8u16) | (b[0] as u16))
}

/// Reads a little-endian `u32`.
pub fn read_u32(file: &mut CanvasReader) -> (r: Result<u32, DecodeError>)
    ensures
        exact_read_step(old(file)@, final(file)@, 4, r, le_u32(old(file)@)),
{
    let b = match read_exact(file, 4) {
        Ok(v) => v,
        Err(e) => return Err(e),
    };
    proof {
        reveal(crate::wire::u32_from_be);
    }
    Ok(((b[3] as u32) << 24u32) | ((b[2] as u32) << 16u32) | ((b[1] as u32) << 8u32) | (
    b[0] as u32))
}

/// Reads a little-endian `u64`.
pub fn read_u64(file: &mut CanvasReader) -> (r: Result<u64, DecodeError>)
    ensures
        exact_read_step(old(file)@, final(file)@, 8, r, le_u64(old(file)@)),
{
    let b = match read_exact(file, 8) {
        Ok(v) => v,
        Err(e) => return Err(e),
    };
    let hi = ((b[7] as u32) << 24u32) | ((b[6] as u32) << 16u32) | ((b[5] as u32) << 8u32) | (
    b[4] as u32);
    let lo = ((b[3] as u32) << 24u32) | ((b[2] as u32) << 16u32) | ((b[1] as u32) << 8u32) | (
    b[0] as u32);
    proof {
        reveal(crate::wire::u32_from_be);
        reveal(crate::wire::u64_from_halves);
    }
    Ok(((hi as u64) << 32u64) | (lo as u64))
}

/// Reads the bits of a little-endian `f32`.
pub fn read_f32_bits(file: &mut CanvasReader) -> (r: Result<u32, DecodeError>)
    ensures
        exact_read_step(old(file)@, final(file)@, 4, r, le_u32(old(file)@)),
{
    read_u32(file)
}

/// Reads the bits of a little-endian `f64`.
pub fn read_f64_bits(file: &mut CanvasReader) -> (r: Result<u64, DecodeError>)
    ensures
        exact_read_step(old(file)@, final(file)@, 8, r, le_u64(old(file)@)),
{
    read_u64(file)
}

/// Whether `j` is the place of the first zero byte of `b`.
pub open spec fn is_first_nul(b: Seq<u8>, j: int) -> bool {
    &&& 0 <= j < b.len()
    &&& b[j] == 0
    &&& forall|k: int| 0 <= k < j ==> b[k] != 0
}

/// Whether `b` holds a zero byte (then one of them is the first).
pub open spec fn has_nul(b: Seq<u8>) -> bool {
    exists|j: int| is_first_nul(b, j)
}

/// The place of the first zero byte of `b`.
pub open spec fn first_nul(b: Seq<u8>) -> int {
    choose|j: int| is_first_nul(b, j)
}

proof fn lemma_first_nul_unique(b: Seq<u8>, j: int)
    requires
        is_first_nul(b, j),
    ensures
        has_nul(b),
        first_nul(b) == j,
{
    assert(is_first_nul(b, j));
    let c = first_nul(b);
    assert(is_first_nul(b, c));
    if c < j {
        assert(b[c] != 0);
    }
    if j < c {
        assert(b[j] != 0);
    }
}

/// What `read_string` gives of `b`: a header byte, skipped, then the bytes
/// up to the first zero, read as text; `None` when either is missing.
pub open spec fn nul_string_len(b: Seq<u8>) -> Option<int> {
    if b.len() >= 1 && has_nul(b.skip(1)) {
        Some(first_nul(b.skip(1)))
    } else {
        None
    }
}

/// Reads a string: one byte that is skipped, then bytes up to a zero byte,
/// decoded as UTF-8 with invalid sequences replaced.
pub fn read_string(file: &mut CanvasReader) -> (r: Result<String, DecodeError>)
    ensures
        match nul_string_len(old(file)@) {
            Some(j) => r matches Ok(s) && s@ == utf8_lossy(old(file)@.subrange(1, 1 + j))
                && (valid_utf8(old(file)@.subrange(1, 1 + j)) ==> s@ == decode_utf8(
                old(file)@.subrange(1, 1 + j),
            )) && final(file)@ == old(file)@.skip(2 + j),
            None => r == Err::<String, DecodeError>(DecodeError::UnexpectedEof),
        },
{
    let ghost b = file@;
    match read_u8(file) {
        Ok(_) => {},
        Err(e) => return Err(e),
    }
    let ghost t = b.skip(1);
    let mut buffer: Vec<u8> = Vec::new();
    loop
        invariant
            b == old(file)@,
            b.len() >= 1,
            t == b.skip(1),
            buffer@.len() <= t.len(),
            file@ == t.skip(buffer@.len() as int),
            buffer@ == t.take(buffer@.len() as int),
            forall|k: int| 0 <= k < buffer@.len() ==> t[k] != 0,
        decreases file@.len(),
    {
        let ghost n = buffer@.len() as int;
        let byte = match read_u8(file) {
            Ok(v) => v,
            Err(e) => {
                proof {
                    assert(t.len() == n);
                    assert(!has_nul(t)) by {
                        assert forall|j: int| 0 <= j < t.len() implies t[j] != 0 by {}
                    }
                }
                return Err(e);
            },
        };
        assert(byte == t[n]);
        if byte == 0 {
            proof {
                assert(is_first_nul(t, n));
                lemma_first_nul_unique(t, n);
                assert(buffer@ =~= b.subrange(1, 1 + n));
                crate::wire::lemma_skip_skip(b, 1, n + 1);
                crate::wire::lemma_skip_skip(t, n, 1);
            }
            return Ok(string_from_utf8_lossy(buffer.as_slice()));
        }
        buffer.push(byte);
        proof {
            crate::wire::lemma_skip_skip(t, n, 1);
        }
        assert(buffer@ =~= t.take(buffer@.len() as int));
    }
}

} // verus!
