//! The packet that asks peers to remove a stroke.

use vstd::prelude::*;

use crate::byte_reader::WireReader;
use crate::byte_writer::WireWriter;
use crate::error::DecodeError;
use crate::networking::packet::PacketData;
use crate::wire::{be_u32, be_u64, lemma_be_u32_roundtrip, lemma_be_u64_roundtrip, lemma_skip_skip,
    u32_be_bytes, u64_be_bytes};

verus! {

/// A stroke to remove, named by its time (bits of an `f64`) and tag.
#[derive(Clone, Copy, Debug, PartialEq, Eq, Structural)]
pub struct StrokeRemovedPacket {
    pub timestamp: u64,
    pub id_random: u32,
}

/// The payload of a removal packet: time, then tag.
pub open spec fn stroke_removed_bytes(p: StrokeRemovedPacket) -> Seq<u8> {
    u64_be_bytes(p.timestamp) + u32_be_bytes(p.id_random)
}

/// Decodes the payload of a removal packet at the front of `b`.
pub open spec fn decode_stroke_removed(b: Seq<u8>) -> Result<StrokeRemovedPacket, DecodeError> {
    if b.len() < 12 {
        Err(DecodeError::UnexpectedEof)
    } else {
        Ok(StrokeRemovedPacket { timestamp: be_u64(b), id_random: be_u32(b.skip(8)) })
    }
}

impl StrokeRemovedPacket {
    /// Reads the payload of a removal packet.
    pub fn parse(reader: &mut WireReader) -> (r: Result<PacketData, DecodeError>)
        ensures
            match decode_stroke_removed(old(reader)@) {
                Ok(m) => r == Ok::<PacketData, DecodeError>(PacketData::StrokeRemoved(m))
                    && final(reader)@ == old(reader)@.skip(12),
                Err(e) => r == Err::<PacketData, DecodeError>(e),
            },
    {
        let ghost b = reader@;
        let timestamp = match reader.read_f64_bits() {
            Ok(v) => v,
            Err(e) => return Err(e),
        };
        let id_random = match reader.read_u32() {
            Ok(v) => v,
            Err(e) => return Err(e),
        };
        proof {
            lemma_skip_skip(b, 8, 4);
        }
        Ok(PacketData::StrokeRemoved(StrokeRemovedPacket { timestamp, id_random }))
    }

    /// Appends the payload of this packet to `writer`.
    pub fn write(&self, writer: &mut WireWriter)
        ensures
            final(writer)@ == old(writer)@ + stroke_removed_bytes(*self),
    {
        writer.write_f64_bits(self.timestamp);
        writer.write_u32(self.id_random);
        assert(writer@ =~= old(writer)@ + stroke_removed_bytes(*self));
    }
}

/// Decoding the payload of a removal packet gives it back.
pub proof fn lemma_stroke_removed_roundtrip(p: StrokeRemovedPacket, rest: Seq<u8>)
    ensures
        decode_stroke_removed(stroke_removed_bytes(p) + rest) == Ok::<
            StrokeRemovedPacket,
            DecodeError,
        >(p),
{
    let b = stroke_removed_bytes(p) + rest;
    let s1 = u32_be_bytes(p.id_random) + rest;
    assert(b =~= u64_be_bytes(p.timestamp) + s1);
    lemma_be_u64_roundtrip(p.timestamp, s1);
    lemma_be_u32_roundtrip(p.id_random, rest);
}

} // verus!
