//! Packets between peers: a two-byte kind tag, then the payload.

use vstd::prelude::*;

use crate::active_strokes::active_stroke::NewPointModel;
use crate::byte_reader::WireReader;
use crate::byte_writer::WireWriter;
use crate::error::{DecodeError, EncodeError, view_result};
use crate::load_file::{
    decode_stroke_record, lemma_stroke_record_roundtrip, record_encodable, stroke_record_bytes,
};
use crate::networking::packets::new_point::{
    NewPointPacketData, decode_new_point, lemma_new_point_roundtrip, new_point_bytes,
    received_point,
};
use crate::networking::packets::player_state::PlayerStateData;
use crate::networking::packets::save_file_data::SaveFileData;
use crate::networking::packets::stroke_complete::StrokeCompleteData;
use crate::networking::packets::stroke_removed::StrokeRemovedPacket;
use crate::stroke::{StrokeMetadataModel, StrokeModel, normalized};
use crate::wire::{be_u16, lemma_be_u16_roundtrip, u16_be_bytes};

verus! {

/// The kinds of packet that carry a tag on the wire.
#[derive(Clone, Copy, Debug, PartialEq, Eq, Structural)]
pub enum PacketType {
    /// Tag 1: a finished stroke.
    StrokeComplete,
    /// Tag 2: one more point of a stroke being drawn.
    NewPoint,
}

/// The tag of a packet kind.
pub open spec fn packet_type_tag(t: PacketType) -> u16 {
    match t {
        PacketType::StrokeComplete => 1,
        PacketType::NewPoint => 2,
    }
}

impl PacketType {
    /// The packet kind that a tag names, if any.
    pub fn try_from(v: u16) -> (r: Result<PacketType, ()>)
        ensures
            v == 1 ==> r == Ok::<PacketType, ()>(PacketType::StrokeComplete),
            v == 2 ==> r == Ok::<PacketType, ()>(PacketType::NewPoint),
            v != 1 && v != 2 ==> r is Err,
    {
        if v == 1 {
            Ok(PacketType::StrokeComplete)
        } else if v == 2 {
            Ok(PacketType::NewPoint)
        } else {
            Err(())
        }
    }

    /// The tag of this packet kind.
    pub fn tag(self) -> (t: u16)
        ensures
            t == packet_type_tag(self),
    {
        match self {
            PacketType::StrokeComplete => 1,
            PacketType::NewPoint => 2,
        }
    }
}

/// The content of a packet.
pub enum PacketData {
    StrokeComplete(StrokeCompleteData),
    NewPoint(NewPointPacketData),
    StrokeRemoved(StrokeRemovedPacket),
    PlayerState(PlayerStateData),
    SaveFileData(SaveFileData),
}

/// The mathematical value of a [`PacketData`].
pub enum PacketModel {
    StrokeComplete(StrokeModel),
    NewPoint(NewPointModel),
    StrokeRemoved(StrokeRemovedPacket),
    PlayerState(PlayerStateData),
    SaveFileData(Seq<u8>),
}

impl View for PacketData {
    type V = PacketModel;

    open spec fn view(&self) -> PacketModel {
        match self {
            PacketData::StrokeComplete(p) => PacketModel::StrokeComplete(p.data@),
            PacketData::NewPoint(p) => PacketModel::NewPoint(p.data@),
            PacketData::StrokeRemoved(p) => PacketModel::StrokeRemoved(*p),
            PacketData::PlayerState(p) => PacketModel::PlayerState(*p),
            PacketData::SaveFileData(p) => PacketModel::SaveFileData(p.data@),
        }
    }
}

/// Decodes a packet: its tag, then the payload of that kind. Bytes after the
/// payload are ignored.
pub open spec fn decode_packet(b: Seq<u8>) -> Result<PacketModel, DecodeError> {
    if b.len() < 2 {
        Err(DecodeError::UnexpectedEof)
    } else {
        let tag = be_u16(b);
        let rest = b.skip(2);
        if tag == 1 {
            match decode_stroke_record(rest, None) {
                Ok((s, _)) => Ok(PacketModel::StrokeComplete(s)),
                Err(e) => Err(e),
            }
        } else if tag == 2 {
            match decode_new_point(rest) {
                Ok(p) => Ok(PacketModel::NewPoint(p)),
                Err(e) => Err(e),
            }
        } else {
            Err(DecodeError::UnknownPacketType(tag))
        }
    }
}

/// The bytes of a packet, for the kinds that carry a tag.
pub open spec fn encode_packet(p: PacketModel) -> Option<Seq<u8>> {
    match p {
        PacketModel::StrokeComplete(s) => Some(u16_be_bytes(1) + stroke_record_bytes(s)),
        PacketModel::NewPoint(d) => Some(u16_be_bytes(2) + new_point_bytes(d)),
        _ => None,
    }
}

/// Whether a packet's content can be written.
pub open spec fn packet_encodable(p: PacketModel) -> bool {
    p matches PacketModel::StrokeComplete(s) ==> record_encodable(s)
}

/// A packet as the receiving peer decodes it: strokes and points arrive with
/// no owner, points as remote, and missing pressures as an empty list.
pub open spec fn received_packet(p: PacketModel) -> PacketModel {
    match p {
        PacketModel::StrokeComplete(s) => PacketModel::StrokeComplete(
            StrokeModel {
                metadata: StrokeMetadataModel { owner: None, ..s.metadata },
                data: normalized(s.data),
            },
        ),
        PacketModel::NewPoint(d) => PacketModel::NewPoint(received_point(d)),
        other => other,
    }
}

/// Decodes a packet received from a peer.
pub fn parse_packet(data: Vec<u8>) -> (r: Result<PacketData, DecodeError>)
    ensures
        view_result(r) == decode_packet(data@),
{
    let ghost b = data@;
    let mut reader = WireReader::new(data);
    let packet_type = match reader.read_u16() {
        Ok(v) => v,
        Err(e) => return Err(e),
    };
    let packet_type = match PacketType::try_from(packet_type) {
        Ok(t) => t,
        Err(_) => return Err(DecodeError::UnknownPacketType(packet_type)),
    };
    match packet_type {
        PacketType::StrokeComplete => StrokeCompleteData::parse(&mut reader),
        PacketType::NewPoint => NewPointPacketData::parse(&mut reader),
    }
}

/// A packet and the peer it came from.
pub struct ReceivedPacket {
    pub from: String,
    pub data: PacketData,
}

/// Decodes the bytes that the peer `from` sent; a packet that does not
/// decode is refused with the reason.
pub fn receive_packet(from: String, bytes: Vec<u8>) -> (r: Result<ReceivedPacket, DecodeError>)
    ensures
        match decode_packet(bytes@) {
            Ok(m) => r matches Ok(p) && p.from@ == from@ && p.data@ == m,
            Err(e) => r matches Err(x) && x == e,
        },
{
    match parse_packet(bytes) {
        Ok(data) => Ok(ReceivedPacket { from, data }),
        Err(e) => Err(e),
    }
}

/// Appends a packet to `writer`: its tag, then its payload. Kinds without a
/// tag are refused and nothing is written.
pub fn write_packet(writer: &mut WireWriter, packet: &PacketData) -> (r: Result<(), EncodeError>)
    requires
        packet_encodable(packet@),
    ensures
        match encode_packet(packet@) {
            Some(bytes) => r is Ok && final(writer)@ == old(writer)@ + bytes,
            None => r == Err::<(), EncodeError>(EncodeError::NoPacketType) && final(writer)@ == old(
                writer,
            )@,
        },
{
    let packet_type = match packet {
        PacketData::StrokeComplete(_) => PacketType::StrokeComplete,
        PacketData::NewPoint(_) => PacketType::NewPoint,
        _ => return Err(EncodeError::NoPacketType),
    };
    writer.write_u16(packet_type.tag());
    let ghost mid = writer@;
    match packet {
        PacketData::StrokeComplete(stroke_complete_data) => stroke_complete_data.write(writer),
        PacketData::NewPoint(new_point_packet_data) => new_point_packet_data.write(writer),
        _ => {},
    }
    assert(writer@ =~= old(writer)@ + encode_packet(packet@).unwrap());
    Ok(())
}

/// What a peer decodes from a written packet is the packet as received:
/// written strokes and points come back equal but for the owner (none), the
/// source of points (remote) and missing pressures (an empty list).
pub proof fn lemma_packet_roundtrip(p: PacketModel)
    requires
        packet_encodable(p),
        encode_packet(p) is Some,
    ensures
        decode_packet(encode_packet(p).unwrap()) == Ok::<PacketModel, DecodeError>(
            received_packet(p),
        ),
{
    match p {
        PacketModel::StrokeComplete(s) => {
            lemma_be_u16_roundtrip(1, stroke_record_bytes(s));
            lemma_stroke_record_roundtrip(s, None, Seq::<u8>::empty());
            assert(stroke_record_bytes(s) + Seq::<u8>::empty() =~= stroke_record_bytes(s));
        },
        PacketModel::NewPoint(d) => {
            lemma_be_u16_roundtrip(2, new_point_bytes(d));
            lemma_new_point_roundtrip(d, Seq::<u8>::empty());
            assert(new_point_bytes(d) + Seq::<u8>::empty() =~= new_point_bytes(d));
        },
        _ => {},
    }
}

} // verus!
