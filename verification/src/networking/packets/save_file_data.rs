//! The packet that carries a whole save file.

use vstd::prelude::*;

use crate::byte_reader::WireReader;
use crate::byte_writer::WireWriter;
use crate::error::DecodeError;
use crate::networking::packet::PacketData;
use crate::wire::{be_u32, lemma_be_u32_roundtrip, u32_be_bytes};

verus! {

/// The bytes of a save file, as sent to peers.
pub struct SaveFileData {
    pub data: Vec<u8>,
}

/// The payload of a save-file packet: the length, then the bytes.
pub open spec fn save_file_bytes(data: Seq<u8>) -> Seq<u8> {
    u32_be_bytes(data.len() as u32) + data
}

/// Decodes the payload of a save-file packet at the front of `b`.
pub open spec fn decode_save_file(b: Seq<u8>) -> Result<Seq<u8>, DecodeError> {
    if b.len() < 4 {
        Err(DecodeError::UnexpectedEof)
    } else if b.skip(4).len() < be_u32(b) {
        Err(DecodeError::TruncatedBlock)
    } else {
        Ok(b.skip(4).take(be_u32(b) as int))
    }
}

impl SaveFileData {
    /// Reads the payload of a save-file packet.
    pub fn parse(reader: &mut WireReader) -> (r: Result<PacketData, DecodeError>)
        ensures
            match decode_save_file(old(reader)@) {
                Ok(m) => r matches Ok(PacketData::SaveFileData(p)) && p.data@ == m,
                Err(e) => r == Err::<PacketData, DecodeError>(e),
            },
    {
        let len = match reader.read_u32() {
            Ok(v) => v,
            Err(e) => return Err(e),
        };
        let data = match reader.read(len as usize) {
            Ok(v) => v,
            Err(_) => return Err(DecodeError::TruncatedBlock),
        };
        Ok(PacketData::SaveFileData(SaveFileData { data }))
    }

    /// Appends the payload of this packet to `writer`.
    pub fn write(&self, writer: &mut WireWriter)
        requires
            self.data@.len() <= u32::MAX,
        ensures
            final(writer)@ == old(writer)@ + save_file_bytes(self.data@),
    {
        writer.write_u32(self.data.len() as u32);
        writer.write(self.data.as_slice());
        assert(writer@ =~= old(writer)@ + save_file_bytes(self.data@));
    }
}

/// Decoding the payload of a save-file packet gives the bytes back.
pub proof fn lemma_save_file_roundtrip(data: Seq<u8>, rest: Seq<u8>)
    requires
        data.len() <= u32::MAX,
    ensures
        decode_save_file(save_file_bytes(data) + rest) == Ok::<Seq<u8>, DecodeError>(data),
{
    let b = save_file_bytes(data) + rest;
    assert(b =~= u32_be_bytes(data.len() as u32) + (data + rest));
    lemma_be_u32_roundtrip(data.len() as u32, data + rest);
    assert((data + rest).take(data.len() as int) =~= data);
}

} // verus!
