//! The packet that carries a finished stroke.

use vstd::prelude::*;

use crate::byte_reader::WireReader;
use crate::byte_writer::WireWriter;
use crate::error::DecodeError;
use crate::load_file::{decode_stroke_record, read_stroke, record_encodable, stroke_record_bytes};
use crate::networking::packet::PacketData;
use crate::stroke::Stroke;

verus! {

/// A finished stroke, as sent to peers.
pub struct StrokeCompleteData {
    pub data: Stroke,
}

impl StrokeCompleteData {
    /// Reads the payload of a finished-stroke packet: a stroke record, whose
    /// stroke gets no owner.
    pub fn parse(reader: &mut WireReader) -> (r: Result<PacketData, DecodeError>)
        ensures
            match decode_stroke_record(old(reader)@, None) {
                Ok((m, k)) => r matches Ok(PacketData::StrokeComplete(p)) && p.data@ == m
                    && final(reader)@ == old(reader)@.skip(k),
                Err(e) => r == Err::<PacketData, DecodeError>(e),
            },
    {
        let result = read_stroke(reader, &None);
        match result {
            Ok(stroke) => Ok(PacketData::StrokeComplete(StrokeCompleteData { data: stroke })),
            Err(err) => Err(err),
        }
    }

    /// Appends the payload of this packet, the stroke's record, to `writer`.
    pub fn write(&self, writer: &mut WireWriter)
        requires
            record_encodable(self.data@),
        ensures
            final(writer)@ == old(writer)@ + stroke_record_bytes(self.data@),
    {
        let m = &self.data.metadata;
        writer.write_u32(m.id_random);
        writer.write_f64_bits(m.timestamp);
        writer.write_f32_bits(m.origin.x);
        writer.write_f32_bits(m.origin.y);
        let bytes = self.data.data.write_data();
        writer.write_u32(bytes.len() as u32);
        writer.write(bytes.as_slice());
        assert(writer@ =~= old(writer)@ + stroke_record_bytes(self.data@));
    }
}

} // verus!
