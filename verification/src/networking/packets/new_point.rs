//! The packet that carries one more point of a stroke being drawn.

use vstd::prelude::*;

use crate::active_strokes::active_stroke::{NewPointData, NewPointModel};
use crate::byte_reader::WireReader;
use crate::byte_writer::WireWriter;
use crate::error::DecodeError;
use crate::networking::packet::PacketData;
use crate::stroke::{Rgb8, StrokeSource, Vec2Bits};
use crate::wire::{be_u32, be_u64, lemma_be_u32_roundtrip, lemma_be_u64_roundtrip, lemma_skip_skip,
    u32_be_bytes, u64_be_bytes};

verus! {

/// A new point of a stroke, as sent to peers.
pub struct NewPointPacketData {
    pub data: NewPointData,
}

/// The payload of a new-point packet: tag, time, origin, colour, point,
/// width, pressure.
pub open spec fn new_point_bytes(d: NewPointModel) -> Seq<u8> {
    u32_be_bytes(d.id_random) + (u64_be_bytes(d.timestamp) + (u32_be_bytes(d.stroke_origin.x) + (
    u32_be_bytes(d.stroke_origin.y) + (seq![d.color.r, d.color.g, d.color.b] + (u32_be_bytes(
        d.point.x,
    ) + (u32_be_bytes(d.point.y) + (u32_be_bytes(d.width) + u32_be_bytes(d.pressure))))))))
}

/// A point as it arrives from a peer: no owner yet, and remote.
pub open spec fn received_point(d: NewPointModel) -> NewPointModel {
    NewPointModel { owner: None, source: StrokeSource::Remote, ..d }
}

/// Decodes the payload of a new-point packet at the front of `b`.
pub open spec fn decode_new_point(b: Seq<u8>) -> Result<NewPointModel, DecodeError> {
    if b.len() < 39 {
        Err(DecodeError::UnexpectedEof)
    } else {
        Ok(
            NewPointModel {
                id_random: be_u32(b),
                timestamp: be_u64(b.skip(4)),
                stroke_origin: Vec2Bits { x: be_u32(b.skip(12)), y: be_u32(b.skip(16)) },
                color: Rgb8 { r: b[20], g: b[21], b: b[22] },
                point: Vec2Bits { x: be_u32(b.skip(23)), y: be_u32(b.skip(27)) },
                width: be_u32(b.skip(31)),
                pressure: be_u32(b.skip(35)),
                owner: None,
                source: StrokeSource::Remote,
            },
        )
    }
}

impl NewPointPacketData {
    /// Reads the payload of a new-point packet.
    pub fn parse(reader: &mut WireReader) -> (r: Result<PacketData, DecodeError>)
        ensures
            match decode_new_point(old(reader)@) {
                Ok(m) => r matches Ok(PacketData::NewPoint(p)) && p.data@ == m && final(reader)@
                    == old(reader)@.skip(39),
                Err(e) => r == Err::<PacketData, DecodeError>(e),
            },
    {
        let ghost b = reader@;
        let id_random = match reader.read_u32() {
            Ok(v) => v,
            Err(e) => return Err(e),
        };
        let timestamp = match reader.read_f64_bits() {
            Ok(v) => v,
            Err(e) => return Err(e),
        };
        proof {
            lemma_skip_skip(b, 4, 8);
        }
        let origin_x = match reader.read_f32_bits() {
            Ok(v) => v,
            Err(e) => return Err(e),
        };
        proof {
            lemma_skip_skip(b, 12, 4);
        }
        let origin_y = match reader.read_f32_bits() {
            Ok(v) => v,
            Err(e) => return Err(e),
        };
        proof {
            lemma_skip_skip(b, 16, 4);
        }
        let r = match reader.read_u8() {
            Ok(v) => v,
            Err(e) => return Err(e),
        };
        proof {
            lemma_skip_skip(b, 20, 1);
        }
        let g = match reader.read_u8() {
            Ok(v) => v,
            Err(e) => return Err(e),
        };
        proof {
            lemma_skip_skip(b, 21, 1);
        }
        let bl = match reader.read_u8() {
            Ok(v) => v,
            Err(e) => return Err(e),
        };
        proof {
            lemma_skip_skip(b, 22, 1);
        }
        let point_x = match reader.read_f32_bits() {
            Ok(v) => v,
            Err(e) => return Err(e),
        };
        proof {
            lemma_skip_skip(b, 23, 4);
        }
        let point_y = match reader.read_f32_bits() {
            Ok(v) => v,
            Err(e) => return Err(e),
        };
        proof {
            lemma_skip_skip(b, 27, 4);
        }
        let width = match reader.read_f32_bits() {
            Ok(v) => v,
            Err(e) => return Err(e),
        };
        proof {
            lemma_skip_skip(b, 31, 4);
        }
        let pressure = match reader.read_f32_bits() {
            Ok(v) => v,
            Err(e) => return Err(e),
        };
        proof {
            lemma_skip_skip(b, 35, 4);
        }
        let data = NewPointData {
            timestamp: timestamp,
            id_random: id_random,
            stroke_origin: Vec2Bits { x: origin_x, y: origin_y },
            color: Rgb8 { r, g, b: bl },
            point: Vec2Bits { x: point_x, y: point_y },
            width: width,
            pressure: pressure,
            owner: None,
            source: StrokeSource::Remote,
        };
        assert(data@ =~= decode_new_point(b).unwrap());
        Ok(PacketData::NewPoint(NewPointPacketData { data }))
    }

    /// Appends the payload of this packet to `writer`.
    pub fn write(&self, writer: &mut WireWriter)
        ensures
            final(writer)@ == old(writer)@ + new_point_bytes(self.data@),
    {
        let d = &self.data;
        writer.write_u32(d.id_random);
        writer.write_f64_bits(d.timestamp);
        writer.write_f32_bits(d.stroke_origin.x);
        writer.write_f32_bits(d.stroke_origin.y);
        writer.write_u8(d.color.r);
        writer.write_u8(d.color.g);
        writer.write_u8(d.color.b);
        writer.write_f32_bits(d.point.x);
        writer.write_f32_bits(d.point.y);
        writer.write_f32_bits(d.width);
        writer.write_f32_bits(d.pressure);
        assert(writer@ =~= old(writer)@ + new_point_bytes(self.data@));
    }
}

/// Decoding the payload of a new-point packet, whatever follows it, gives the
/// point back as it arrives from a peer.
pub proof fn lemma_new_point_roundtrip(d: NewPointModel, rest: Seq<u8>)
    ensures
        new_point_bytes(d).len() == 39,
        decode_new_point(new_point_bytes(d) + rest) == Ok::<NewPointModel, DecodeError>(
            received_point(d),
        ),
{
    let s8 = u32_be_bytes(d.pressure) + rest;
    let s7 = u32_be_bytes(d.width) + s8;
    let s6 = u32_be_bytes(d.point.y) + s7;
    let s5 = u32_be_bytes(d.point.x) + s6;
    let s4 = seq![d.color.r, d.color.g, d.color.b] + s5;
    let s3 = u32_be_bytes(d.stroke_origin.y) + s4;
    let s2 = u32_be_bytes(d.stroke_origin.x) + s3;
    let s1 = u64_be_bytes(d.timestamp) + s2;
    let b = new_point_bytes(d) + rest;
    assert(b =~= u32_be_bytes(d.id_random) + s1);
    lemma_be_u32_roundtrip(d.id_random, s1);
    lemma_be_u64_roundtrip(d.timestamp, s2);
    lemma_be_u32_roundtrip(d.stroke_origin.x, s3);
    lemma_be_u32_roundtrip(d.stroke_origin.y, s4);
    lemma_be_u32_roundtrip(d.point.x, s6);
    lemma_be_u32_roundtrip(d.point.y, s7);
    lemma_be_u32_roundtrip(d.width, s8);
    lemma_be_u32_roundtrip(d.pressure, rest);
    assert(b.skip(4) == s1);
    assert(b.skip(12) == s2) by {
        lemma_skip_skip(b, 4, 8);
    }
    assert(b.skip(16) == s3) by {
        lemma_skip_skip(b, 12, 4);
    }
    assert(b.skip(20) == s4) by {
        lemma_skip_skip(b, 16, 4);
    }
    assert(b[20] == d.color.r && b[21] == d.color.g && b[22] == d.color.b) by {
        assert(s4[0] == b[20] && s4[1] == b[21] && s4[2] == b[22]);
    }
    assert(b.skip(23) == s5) by {
        assert(s4.skip(3) =~= s5);
        lemma_skip_skip(b, 20, 3);
    }
    assert(b.skip(27) == s6) by {
        lemma_skip_skip(b, 23, 4);
    }
    assert(b.skip(31) == s7) by {
        lemma_skip_skip(b, 27, 4);
    }
    assert(b.skip(35) == s8) by {
        lemma_skip_skip(b, 31, 4);
    }
    assert(b.len() >= 39);
    assert(decode_new_point(b).unwrap() =~= received_point(d));
}

} // verus!
