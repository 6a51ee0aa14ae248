pub mod packet;
pub mod packets;
pub mod connected_peers;
pub mod handle_new_point_packet;
pub mod handle_removed_strokes;
pub mod send_active_strokes;
pub mod send_removed_strokes;
pub mod network_owned;

use vstd::prelude::*;

use crate::byte_writer::WireWriter;
use crate::error::EncodeError;
use crate::networking::connected_peers::PeerRegistry;
use crate::networking::packet::{PacketData, encode_packet, packet_encodable, write_packet};

verus! {

/// Sending to peers.
pub struct Networking;

impl Networking {
    /// The peers currently connected.
    pub fn get_currently_connected_peers(peers: &PeerRegistry) -> (r: Vec<String>)
        ensures
            crate::chunks::ids_view(r@) == peers@.connected,
            connected_peers::distinct(crate::chunks::ids_view(r@)),
    {
        connected_peers::get_currently_connected_peers(peers)
    }

    /// The bytes to send for a packet; kinds without a tag cannot be sent.
    pub fn packet_bytes(data: &PacketData) -> (r: Result<Vec<u8>, EncodeError>)
        requires
            packet_encodable(data@),
        ensures
            match encode_packet(data@) {
                Some(bytes) => r matches Ok(v) && v@ == bytes,
                None => r == Err::<Vec<u8>, EncodeError>(EncodeError::NoPacketType),
            },
    {
        let mut writer = WireWriter::new();
        match write_packet(&mut writer, data) {
            Ok(_) => {
                assert(writer@ =~= encode_packet(data@).unwrap());
                Ok(writer.into_bytes())
            },
            Err(e) => Err(e),
        }
    }
}

} // verus!
