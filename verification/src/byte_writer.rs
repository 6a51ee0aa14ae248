//! A growable byte buffer written at the back, big-endian: the bytes that
//! `binary_util::io::ByteWriter` writes, appended to a `Vec`.

use vstd::prelude::*;

use crate::wire::{u16_be_bytes, u32_be_bytes, u64_be_bytes};

verus! {

/// The bytes written so far are its view.
pub struct WireWriter {
    buf: Vec<u8>,
}

impl View for WireWriter {
    type V = Seq<u8>;

    closed spec fn view(&self) -> Seq<u8> {
        self.buf@
    }
}

impl WireWriter {
    /// An empty writer.
    pub fn new() -> (w: Self)
        ensures
            w@ == Seq::<u8>::empty(),
    {
        WireWriter { buf: Vec::new() }
    }

    /// Appends one byte.
    pub fn write_u8(&mut self, v: u8)
        ensures
            final(self)@ == old(self)@.push(v),
    {
        self.buf.push(v);
    }

    /// Appends a big-endian `u16`.
    pub fn write_u16(&mut self, v: u16)
        ensures
            final(self)@ == old(self)@ + u16_be_bytes(v),
    {
        self.buf.push((v >> 8u16) as u8);
        self.buf.push(v as u8);
        assert(self.buf@ =~= old(self)@ + u16_be_bytes(v));
    }

    /// Appends a big-endian `u32`.
    pub fn write_u32(&mut self, v: u32)
        ensures
            final(self)@ == old(self)@ + u32_be_bytes(v),
    {
        self.buf.push((v >> 24u32) as u8);
        self.buf.push((v >> 16u32) as u8);
        self.buf.push((v >> 8u32) as u8);
        self.buf.push(v as u8);
        assert(self.buf@ =~= old(self)@ + u32_be_bytes(v));
    }

    /// Appends a big-endian `u64`.
    pub fn write_u64(&mut self, v: u64)
        ensures
            final(self)@ == old(self)@ + u64_be_bytes(v),
    {
        self.write_u32((v >> 32u64) as u32);
        self.write_u32(v as u32);
        assert(self.buf@ =~= old(self)@ + u64_be_bytes(v));
    }

    /// Appends the bits of an `f32`, big-endian.
    pub fn write_f32_bits(&mut self, bits: u32)
        ensures
            final(self)@ == old(self)@ + u32_be_bytes(bits),
    {
        self.write_u32(bits);
    }

    /// Appends the bits of an `f64`, big-endian.
    pub fn write_f64_bits(&mut self, bits: u64)
        ensures
            final(self)@ == old(self)@ + u64_be_bytes(bits),
    {
        self.write_u64(bits);
    }

    /// Appends a block of bytes as they are.
    pub fn write(&mut self, bytes: &[u8])
        ensures
            final(self)@ == old(self)@ + bytes@,
    {
        let mut i: usize = 0;
        while i < bytes.len()
            invariant
                i <= bytes@.len(),
                self.buf@ == old(self)@ + bytes@.take(i as int),
            decreases bytes.len() - i,
        {
            self.buf.push(bytes[i]);
            i = i + 1;
            assert(self.buf@ =~= old(self)@ + bytes@.take(i as int));
        }
        assert(bytes@.take(i as int) =~= bytes@);
    }

    /// How many bytes have been written.
    pub fn len(&self) -> (n: usize)
        ensures
            n == self@.len(),
    {
        self.buf.len()
    }

    /// The bytes written, handed over.
    pub fn into_bytes(self) -> (v: Vec<u8>)
        ensures
            v@ == self@,
    {
        self.buf
    }
}

} // verus!
