//! Reading wire data from the front of a byte buffer, through
//! `binary_util::io::ByteReader`.
//!
//! Its fixed-width reads are big-endian and leave the buffer as it was when
//! too few bytes remain.

use vstd::prelude::*;

use crate::error::DecodeError;
use crate::wire::{be_u16, be_u32, be_u64};

verus! {

#[verifier::external_type_specification]
#[verifier::external_body]
pub struct ExOutsideByteReader(binary_util::io::ByteReader);

/// The bytes that a `binary_util` reader has not read yet.
pub uninterp spec fn unread_bytes(r: binary_util::io::ByteReader) -> Seq<u8>;

/// What a read of `width` bytes that decodes them as `value` does to the
/// unread bytes `before`: when that many are there, gives the value and
/// consumes them; otherwise gives nothing and consumes nothing.
pub open spec fn outside_read_step<T>(
    before: Seq<u8>,
    after: Seq<u8>,
    width: nat,
    res: Option<T>,
    value: T,
) -> bool {
    if before.len() >= width {
        res == Some(value) && after == before.skip(width as int)
    } else {
        res is None && after == before
    }
}

/// Calls `ByteReader::from(Vec<u8>)`: a reader whose unread bytes are `data`.
#[verifier::external_body]
fn outside_reader_from(data: Vec<u8>) -> (r: binary_util::io::ByteReader)
    ensures
        unread_bytes(r) == data@,
{
    binary_util::io::ByteReader::from(data)
}

/// Calls `ByteReader::as_slice`, which gives the unread bytes, for their
/// count.
#[verifier::external_body]
fn outside_unread_len(r: &binary_util::io::ByteReader) -> (n: usize)
    ensures
        n == unread_bytes(*r).len(),
{
    r.as_slice().len()
}

/// Calls `ByteReader::read_u8`: the next byte, consumed; an error and nothing
/// consumed when none is left.
#[verifier::external_body]
fn outside_read_u8(r: &mut binary_util::io::ByteReader) -> (v: Option<u8>)
    ensures
        outside_read_step(unread_bytes(*old(r)), unread_bytes(*final(r)), 1, v, unread_bytes(*old(r))[0]),
{
    match r.read_u8() {
        Ok(b) => Some(b),
        Err(_) => None,
    }
}

/// Calls `ByteReader::read_bool`: whether the next byte is not zero, the
/// byte consumed; an error and nothing consumed when none is left.
#[verifier::external_body]
fn outside_read_bool(r: &mut binary_util::io::ByteReader) -> (v: Option<bool>)
    ensures
        outside_read_step(
            unread_bytes(*old(r)),
            unread_bytes(*final(r)),
            1,
            v,
            unread_bytes(*old(r))[0] != 0,
        ),
{
    match r.read_bool() {
        Ok(b) => Some(b),
        Err(_) => None,
    }
}

/// Calls `ByteReader::read_u16`: the next two bytes as a big-endian `u16`,
/// consumed; an error and nothing consumed when fewer are left.
#[verifier::external_body]
fn outside_read_u16(r: &mut binary_util::io::ByteReader) -> (v: Option<u16>)
    ensures
        outside_read_step(
            unread_bytes(*old(r)),
            unread_bytes(*final(r)),
            2,
            v,
            be_u16(unread_bytes(*old(r))),
        ),
{
    match r.read_u16() {
        Ok(x) => Some(x),
        Err(_) => None,
    }
}

/// Calls `ByteReader::read_u32`: the next four bytes as a big-endian `u32`,
/// consumed; an error and nothing consumed when fewer are left.
#[verifier::external_body]
fn outside_read_u32(r: &mut binary_util::io::ByteReader) -> (v: Option<u32>)
    ensures
        outside_read_step(
            unread_bytes(*old(r)),
            unread_bytes(*final(r)),
            4,
            v,
            be_u32(unread_bytes(*old(r))),
        ),
{
    match r.read_u32() {
        Ok(x) => Some(x),
        Err(_) => None,
    }
}

/// Calls `ByteReader::read_u64`: the next eight bytes as a big-endian `u64`,
/// consumed; an error and nothing consumed when fewer are left.
#[verifier::external_body]
fn outside_read_u64(r: &mut binary_util::io::ByteReader) -> (v: Option<u64>)
    ensures
        outside_read_step(
            unread_bytes(*old(r)),
            unread_bytes(*final(r)),
            8,
            v,
            be_u64(unread_bytes(*old(r))),
        ),
{
    match r.read_u64() {
        Ok(x) => Some(x),
        Err(_) => None,
    }
}

/// Calls `ByteReader::read` with a buffer of `len` bytes: the next `len`
/// bytes, consumed; an error and nothing consumed when fewer are left.
#[verifier::external_body]
fn outside_read(r: &mut binary_util::io::ByteReader, len: usize) -> (v: Option<Vec<u8>>)
    ensures
        unread_bytes(*old(r)).len() >= len ==> (v matches Some(b) && b@ == unread_bytes(*old(r)).take(
            len as int,
        ) && unread_bytes(*final(r)) == unread_bytes(*old(r)).skip(len as int)),
        unread_bytes(*old(r)).len() < len ==> v is None && unread_bytes(*final(r)) == unread_bytes(
            *old(r),
        ),
{
    let mut buffer = vec![0u8; len];
    match r.read(&mut buffer) {
        Ok(()) => Some(buffer),
        Err(_) => None,
    }
}

/// A reader of wire data; its view is the bytes not read yet.
pub struct WireReader {
    inner: binary_util::io::ByteReader,
}

impl View for WireReader {
    type V = Seq<u8>;

    closed spec fn view(&self) -> Seq<u8> {
        unread_bytes(self.inner)
    }
}

/// What a read of `width` bytes decoded as `value` does: it succeeds exactly
/// when `width` bytes remain, and then it consumes them.
pub open spec fn read_step<T>(
    before: Seq<u8>,
    after: Seq<u8>,
    width: nat,
    res: Result<T, DecodeError>,
    value: T,
) -> bool {
    if before.len() >= width {
        res == Ok::<T, DecodeError>(value) && after == before.skip(width as int)
    } else {
        res == Err::<T, DecodeError>(DecodeError::UnexpectedEof) && after == before
    }
}

/// A failed outside read is an unexpected end of the data.
fn eof_on_none<T>(v: Option<T>) -> (r: Result<T, DecodeError>)
    ensures
        v matches Some(x) ==> r == Ok::<T, DecodeError>(x),
        v is None ==> r == Err::<T, DecodeError>(DecodeError::UnexpectedEof),
{
    match v {
        Some(x) => Ok(x),
        None => Err(DecodeError::UnexpectedEof),
    }
}

impl WireReader {
    /// A reader over all of `data`.
    pub fn new(data: Vec<u8>) -> (r: Self)
        ensures
            r@ == data@,
    {
        WireReader { inner: outside_reader_from(data) }
    }

    /// How many bytes are left.
    pub fn remaining(&self) -> (n: usize)
        ensures
            n == self@.len(),
    {
        outside_unread_len(&self.inner)
    }

    /// Reads one byte.
    pub fn read_u8(&mut self) -> (r: Result<u8, DecodeError>)
        ensures
            read_step(old(self)@, final(self)@, 1, r, old(self)@[0]),
    {
        eof_on_none(outside_read_u8(&mut self.inner))
    }

    /// Reads a boolean: any byte but zero is true.
    pub fn read_bool(&mut self) -> (r: Result<bool, DecodeError>)
        ensures
            read_step(old(self)@, final(self)@, 1, r, old(self)@[0] != 0),
    {
        eof_on_none(outside_read_bool(&mut self.inner))
    }

    /// Reads a big-endian `u16`.
    pub fn read_u16(&mut self) -> (r: Result<u16, DecodeError>)
        ensures
            read_step(old(self)@, final(self)@, 2, r, be_u16(old(self)@)),
    {
        eof_on_none(outside_read_u16(&mut self.inner))
    }

    /// Reads a big-endian `u32`.
    pub fn read_u32(&mut self) -> (r: Result<u32, DecodeError>)
        ensures
            read_step(old(self)@, final(self)@, 4, r, be_u32(old(self)@)),
    {
        eof_on_none(outside_read_u32(&mut self.inner))
    }

    /// Reads a big-endian `u64`.
    pub fn read_u64(&mut self) -> (r: Result<u64, DecodeError>)
        ensures
            read_step(old(self)@, final(self)@, 8, r, be_u64(old(self)@)),
    {
        eof_on_none(outside_read_u64(&mut self.inner))
    }

    /// Reads the bits of a big-endian `f32`: the same four bytes as a
    /// `u32`.
    pub fn read_f32_bits(&mut self) -> (r: Result<u32, DecodeError>)
        ensures
            read_step(old(self)@, final(self)@, 4, r, be_u32(old(self)@)),
    {
        self.read_u32()
    }

    /// Reads the bits of a big-endian `f64`: the same eight bytes as a
    /// `u64`.
    pub fn read_f64_bits(&mut self) -> (r: Result<u64, DecodeError>)
        ensures
            read_step(old(self)@, final(self)@, 8, r, be_u64(old(self)@)),
    {
        self.read_u64()
    }

    /// Reads the next `len` bytes as a block.
    pub fn read(&mut self, len: usize) -> (r: Result<Vec<u8>, DecodeError>)
        ensures
            old(self)@.len() >= len ==> (r matches Ok(v) && v@ == old(self)@.take(len as int)
                && final(self)@ == old(self)@.skip(len as int)),
            old(self)@.len() < len ==> r == Err::<Vec<u8>, DecodeError>(
                DecodeError::UnexpectedEof,
            ) && final(self)@ == old(self)@,
    {
        eof_on_none(outside_read(&mut self.inner, len))
    }
}

} // verus!
