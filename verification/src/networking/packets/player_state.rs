//! The packet that tells peers where a player looks.

use vstd::prelude::*;

use crate::byte_reader::WireReader;
use crate::byte_writer::WireWriter;
use crate::error::DecodeError;
use crate::networking::packet::PacketData;
use crate::stroke::Vec2Bits;
use crate::wire::{be_u32, lemma_be_u32_roundtrip, lemma_skip_skip, u32_be_bytes};

verus! {

/// Where a player's view is: position, zoom and rotation, each number the
/// bits of an `f32`.
#[derive(Clone, Copy, Debug, PartialEq, Eq, Structural)]
pub struct PlayerStateData {
    pub position: Vec2Bits,
    pub zoom: u32,
    pub rotation: u32,
}

/// The payload of a player-state packet: x, y, zoom, rotation.
pub open spec fn player_state_bytes(p: PlayerStateData) -> Seq<u8> {
    u32_be_bytes(p.position.x) + (u32_be_bytes(p.position.y) + (u32_be_bytes(p.zoom)
        + u32_be_bytes(p.rotation)))
}

/// Decodes the payload of a player-state packet at the front of `b`.
pub open spec fn decode_player_state(b: Seq<u8>) -> Result<PlayerStateData, DecodeError> {
    if b.len() < 16 {
        Err(DecodeError::UnexpectedEof)
    } else {
        Ok(
            PlayerStateData {
                position: Vec2Bits { x: be_u32(b), y: be_u32(b.skip(4)) },
                zoom: be_u32(b.skip(8)),
                rotation: be_u32(b.skip(12)),
            },
        )
    }
}

impl PlayerStateData {
    /// Reads the payload of a player-state packet.
    pub fn parse(reader: &mut WireReader) -> (r: Result<PacketData, DecodeError>)
        ensures
            match decode_player_state(old(reader)@) {
                Ok(m) => r == Ok::<PacketData, DecodeError>(PacketData::PlayerState(m))
                    && final(reader)@ == old(reader)@.skip(16),
                Err(e) => r == Err::<PacketData, DecodeError>(e),
            },
    {
        let ghost b = reader@;
        let x = match reader.read_f32_bits() {
            Ok(v) => v,
            Err(e) => return Err(e),
        };
        let y = match reader.read_f32_bits() {
            Ok(v) => v,
            Err(e) => return Err(e),
        };
        proof {
            lemma_skip_skip(b, 4, 4);
        }
        let zoom = match reader.read_f32_bits() {
            Ok(v) => v,
            Err(e) => return Err(e),
        };
        proof {
            lemma_skip_skip(b, 8, 4);
        }
        let rotation = match reader.read_f32_bits() {
            Ok(v) => v,
            Err(e) => return Err(e),
        };
        proof {
            lemma_skip_skip(b, 12, 4);
        }
        Ok(PacketData::PlayerState(PlayerStateData { position: Vec2Bits { x, y }, zoom, rotation }))
    }

    /// Appends the payload of this packet to `writer`.
    pub fn write(&self, writer: &mut WireWriter)
        ensures
            final(writer)@ == old(writer)@ + player_state_bytes(*self),
    {
        writer.write_f32_bits(self.position.x);
        writer.write_f32_bits(self.position.y);
        writer.write_f32_bits(self.zoom);
        writer.write_f32_bits(self.rotation);
        assert(writer@ =~= old(writer)@ + player_state_bytes(*self));
    }
}

/// Decoding the payload of a player-state packet gives it back.
pub proof fn lemma_player_state_roundtrip(p: PlayerStateData, rest: Seq<u8>)
    ensures
        decode_player_state(player_state_bytes(p) + rest) == Ok::<PlayerStateData, DecodeError>(p),
{
    let b = player_state_bytes(p) + rest;
    let s3 = u32_be_bytes(p.rotation) + rest;
    let s2 = u32_be_bytes(p.zoom) + s3;
    let s1 = u32_be_bytes(p.position.y) + s2;
    assert(b =~= u32_be_bytes(p.position.x) + s1);
    lemma_be_u32_roundtrip(p.position.x, s1);
    lemma_be_u32_roundtrip(p.position.y, s2);
    lemma_be_u32_roundtrip(p.zoom, s3);
    lemma_be_u32_roundtrip(p.rotation, rest);
    lemma_skip_skip(b, 4, 4);
    lemma_skip_skip(b, 8, 4);
}

} // verus!
