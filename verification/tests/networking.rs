use draw::active_strokes::active_stroke::{ActiveStroke, NewPointData, RemoveStrokeEvent};
use draw::byte_reader::WireReader;
use draw::byte_writer::WireWriter;
use draw::error::{DecodeError, EncodeError};
use draw::networking::Networking;
use draw::networking::connected_peers::{PeerRegistry, connected_peer_events, get_currently_connected_peers};
use draw::networking::handle_new_point_packet::point_from_peer;
use draw::networking::handle_removed_strokes::remove_event_for;
use draw::networking::network_owned::{NetworkOwned, owned_by};
use draw::networking::packet::{PacketData, PacketType, parse_packet, receive_packet, write_packet};
use draw::networking::packets::new_point::NewPointPacketData;
use draw::networking::packets::player_state::PlayerStateData;
use draw::networking::packets::save_file_data::SaveFileData;
use draw::networking::packets::stroke_complete::StrokeCompleteData;
use draw::networking::packets::stroke_removed::StrokeRemovedPacket;
use draw::networking::send_active_strokes::{complete_packet, point_packet};
use draw::networking::send_removed_strokes::removal_packets;
use draw::stroke::{Rgb8, Stroke, StrokeData, StrokeMetadata, StrokeSource, StrokeType, Vec2Bits};

fn v(x: f32, y: f32) -> Vec2Bits {
    Vec2Bits { x: x.to_bits(), y: y.to_bits() }
}

fn point(owner: Option<&str>) -> NewPointData {
    NewPointData {
        timestamp: 1_750_000_000.25f64.to_bits(),
        id_random: 0xdead_beef,
        stroke_origin: v(10.0, -20.0),
        point: v(11.0, -19.0),
        width: 3.0f32.to_bits(),
        pressure: 0.5f32.to_bits(),
        color: Rgb8 { r: 1, g: 2, b: 3 },
        owner: owner.map(String::from),
        source: StrokeSource::User,
    }
}

#[test]
fn packet_type_tags() {
    assert_eq!(PacketType::try_from(1), Ok(PacketType::StrokeComplete));
    assert_eq!(PacketType::try_from(2), Ok(PacketType::NewPoint));
    assert_eq!(PacketType::try_from(0), Err(()));
    assert_eq!(PacketType::try_from(3), Err(()));
    assert_eq!(PacketType::StrokeComplete.tag(), 1);
    assert_eq!(PacketType::NewPoint.tag(), 2);
}

#[test]
fn new_point_packet_roundtrip() {
    let p = PacketData::NewPoint(NewPointPacketData { data: point(None) });
    let bytes = Networking::packet_bytes(&p).unwrap();
    assert_eq!(bytes.len(), 2 + 39);
    assert_eq!(&bytes[0..2], &[0, 2]);
    match parse_packet(bytes).unwrap() {
        PacketData::NewPoint(q) => {
            let sent = point(None);
            assert_eq!(q.data.timestamp, sent.timestamp);
            assert_eq!(q.data.id_random, sent.id_random);
            assert_eq!(q.data.stroke_origin, sent.stroke_origin);
            assert_eq!(q.data.point, sent.point);
            assert_eq!(q.data.width, sent.width);
            assert_eq!(q.data.pressure, sent.pressure);
            assert_eq!(q.data.color, sent.color);
            assert_eq!(q.data.owner, None);
            assert_eq!(q.data.source, StrokeSource::Remote);
        }
        _ => panic!("wrong packet kind"),
    }
}

#[test]
fn stroke_complete_packet_roundtrip() {
    let stroke = Stroke {
        metadata: StrokeMetadata { timestamp: 5.0f64.to_bits(), id_random: 9, owner: None, origin: v(1.0, 2.0) },
        data: StrokeData::new(vec![v(0.0, 0.0), v(1.0, 1.0)], None, 2.0f32.to_bits(), StrokeType::Eraser),
    };
    let mut w = WireWriter::new();
    w.write_u8(0xee);
    assert_eq!(write_packet(&mut w, &PacketData::StrokeComplete(StrokeCompleteData { data: stroke })), Ok(()));
    let mut bytes = w.into_bytes();
    assert_eq!(bytes.remove(0), 0xee);
    match parse_packet(bytes).unwrap() {
        PacketData::StrokeComplete(s) => {
            assert_eq!(s.data.metadata.id_random, 9);
            assert_eq!(s.data.metadata.timestamp, 5.0f64.to_bits());
            assert_eq!(s.data.metadata.origin, v(1.0, 2.0));
            assert_eq!(s.data.data.points, vec![v(0.0, 0.0), v(1.0, 1.0)]);
            assert_eq!(s.data.data.pressures, Some(vec![]));
        }
        _ => panic!("wrong packet kind"),
    }
}

#[test]
fn untagged_packets_are_not_written() {
    let mut w = WireWriter::new();
    let p = PacketData::PlayerState(PlayerStateData { position: v(0.0, 0.0), zoom: 0, rotation: 0 });
    assert_eq!(write_packet(&mut w, &p), Err(EncodeError::NoPacketType));
    assert_eq!(w.len(), 0);
    let r = PacketData::StrokeRemoved(StrokeRemovedPacket { timestamp: 1, id_random: 2 });
    assert_eq!(Networking::packet_bytes(&r), Err(EncodeError::NoPacketType));
}

#[test]
fn parse_packet_errors() {
    assert_eq!(parse_packet(vec![0]).err(), Some(DecodeError::UnexpectedEof));
    assert_eq!(parse_packet(vec![0, 7, 1, 2]).err(), Some(DecodeError::UnknownPacketType(7)));
    assert_eq!(parse_packet(vec![0, 2, 1, 2, 3]).err(), Some(DecodeError::UnexpectedEof));
    assert_eq!(parse_packet(vec![0, 1, 0, 0]).err(), Some(DecodeError::UnexpectedEof));
}

#[test]
fn player_state_roundtrip() {
    let p = PlayerStateData { position: v(1.5, -2.5), zoom: 2.0f32.to_bits(), rotation: 0.25f32.to_bits() };
    let mut w = WireWriter::new();
    p.write(&mut w);
    let mut r = WireReader::new(w.into_bytes());
    match PlayerStateData::parse(&mut r).unwrap() {
        PacketData::PlayerState(q) => assert_eq!(q, p),
        _ => panic!("wrong packet kind"),
    }
    let mut short = WireReader::new(vec![0; 15]);
    assert_eq!(PlayerStateData::parse(&mut short).err(), Some(DecodeError::UnexpectedEof));
}

#[test]
fn stroke_removed_roundtrip() {
    let p = StrokeRemovedPacket { timestamp: 7.5f64.to_bits(), id_random: 42 };
    let mut w = WireWriter::new();
    p.write(&mut w);
    let bytes = w.into_bytes();
    assert_eq!(bytes.len(), 12);
    let mut r = WireReader::new(bytes);
    match StrokeRemovedPacket::parse(&mut r).unwrap() {
        PacketData::StrokeRemoved(q) => assert_eq!(q, p),
        _ => panic!("wrong packet kind"),
    }
}

#[test]
fn save_file_data_roundtrip() {
    let p = SaveFileData { data: vec![1, 2, 3, 4, 5] };
    let mut w = WireWriter::new();
    p.write(&mut w);
    let bytes = w.into_bytes();
    assert_eq!(bytes, vec![0, 0, 0, 5, 1, 2, 3, 4, 5]);
    let mut r = WireReader::new(bytes);
    match SaveFileData::parse(&mut r).unwrap() {
        PacketData::SaveFileData(q) => assert_eq!(q.data, vec![1, 2, 3, 4, 5]),
        _ => panic!("wrong packet kind"),
    }
    let mut cut = WireReader::new(vec![0, 0, 0, 5, 1]);
    assert_eq!(SaveFileData::parse(&mut cut).err(), Some(DecodeError::TruncatedBlock));
}

#[test]
fn peers_connect_and_disconnect() {
    let mut peers = PeerRegistry::new();
    peers.peer_connected(String::from("a"));
    peers.peer_connected(String::from("b"));
    peers.peer_connected(String::from("a"));
    assert_eq!(get_currently_connected_peers(&peers), vec![String::from("a"), String::from("b")]);
    assert_eq!(Networking::get_currently_connected_peers(&peers), vec![String::from("a"), String::from("b")]);
    let events = connected_peer_events(&mut peers);
    let ids: Vec<String> = events.into_iter().map(|e| e.id).collect();
    assert_eq!(ids, vec![String::from("a"), String::from("b")]);
    assert!(connected_peer_events(&mut peers).is_empty());
    peers.peer_disconnected(&String::from("a"));
    assert_eq!(peers.connected(), vec![String::from("b")]);
    peers.peer_disconnected(&String::from("zzz"));
    assert_eq!(peers.connected(), vec![String::from("b")]);
    peers.peer_connected(String::from("a"));
    assert_eq!(peers.connected(), vec![String::from("b"), String::from("a")]);
    assert_eq!(peers.take_just_connected(), vec![String::from("a")]);
}

#[test]
fn removals_sent_up_to_first_remote() {
    let ev = |ts: u64, id: u32, owner: Option<&str>| RemoveStrokeEvent { timestamp: ts, id_random: id, owner: owner.map(String::from) };
    let events = vec![ev(1, 1, None), ev(2, 2, None), ev(3, 3, Some("x")), ev(4, 4, None)];
    assert_eq!(
        removal_packets(&events),
        vec![StrokeRemovedPacket { timestamp: 1, id_random: 1 }, StrokeRemovedPacket { timestamp: 2, id_random: 2 }]
    );
    assert!(removal_packets(&vec![ev(5, 5, Some("y"))]).is_empty());
}

#[test]
fn remove_event_from_peer() {
    let e = remove_event_for(&StrokeRemovedPacket { timestamp: 11, id_random: 12 }, &String::from("peer"));
    assert_eq!(e.timestamp, 11);
    assert_eq!(e.id_random, 12);
    assert_eq!(e.owner, Some(String::from("peer")));
}

#[test]
fn points_from_and_to_peers() {
    let d = point_from_peer(&NewPointPacketData { data: point(None) }, &String::from("p2"));
    assert_eq!(d.owner, Some(String::from("p2")));
    assert_eq!(d.point, point(None).point);
    assert!(point_packet(&point(Some("p2"))).is_none());
    let p = point_packet(&point(None)).unwrap();
    assert_eq!(p.data.id_random, 0xdead_beef);
}

#[test]
fn complete_packet_keeps_all_pressures() {
    let mut s = ActiveStroke::from_new_point(&point(None));
    s.add_point(v(0.0, 0.0), 1.0f32.to_bits());
    s.add_point(v(1.0, 0.0), 1.0f32.to_bits());
    let p = complete_packet(&s);
    assert_eq!(p.data.metadata.owner, None);
    assert_eq!(p.data.metadata.id_random, 0xdead_beef);
    assert_eq!(p.data.data.stroke_type, StrokeType::Paint(Rgb8 { r: 1, g: 2, b: 3 }));
    assert_eq!(p.data.data.pressures, Some(vec![1.0f32.to_bits(), 1.0f32.to_bits()]));
}

#[test]
fn sprites_moved_by_their_owner() {
    let items = vec![
        NetworkOwned { owner: String::from("a") },
        NetworkOwned { owner: String::from("b") },
        NetworkOwned { owner: String::from("a") },
    ];
    assert_eq!(owned_by(&items, &String::from("a")), vec![0, 2]);
    assert_eq!(owned_by(&items, &String::from("b")), vec![1]);
    assert!(owned_by(&items, &String::from("c")).is_empty());
    assert!(items[1].is_owned_by(&String::from("b")));
}

#[test]
fn received_packets_keep_their_sender() {
    let bytes = Networking::packet_bytes(&PacketData::NewPoint(NewPointPacketData { data: point(None) })).unwrap();
    let p = receive_packet(String::from("peer-9"), bytes).ok().unwrap();
    assert_eq!(p.from, "peer-9");
    assert!(matches!(p.data, PacketData::NewPoint(_)));
    assert_eq!(receive_packet(String::from("x"), vec![0, 9]).err(), Some(DecodeError::UnknownPacketType(9)));
}
