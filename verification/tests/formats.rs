use draw::byte_reader::WireReader;
use draw::file_reader::CanvasReader;
use draw::error::DecodeError;
use draw::load_file::{self, SaveFileReader, is_recent, OLDEST_LOADED_TIMESTAMP_BITS};
use draw::save_load;
use draw::stroke::{Rgb8, StrokeData, StrokeType, Vec2Bits};

fn v(x: f32, y: f32) -> Vec2Bits {
    Vec2Bits { x: x.to_bits(), y: y.to_bits() }
}

fn paint(r: u8, g: u8, b: u8) -> StrokeType {
    StrokeType::Paint(Rgb8 { r, g, b })
}

fn sample_data() -> StrokeData {
    StrokeData::new(
        vec![v(1.0, 2.0), v(-3.5, 0.25)],
        Some(vec![0.5f32.to_bits(), 0.75f32.to_bits()]),
        4.0f32.to_bits(),
        paint(10, 20, 30),
    )
}

fn assert_same_data(a: &StrokeData, b: &StrokeData) {
    assert_eq!(a.stroke_type, b.stroke_type);
    assert_eq!(a.width, b.width);
    assert_eq!(a.points, b.points);
    assert_eq!(a.pressures, b.pressures);
}

#[test]
fn stroke_data_bytes_layout() {
    let bytes = sample_data().write_data();
    let mut expected = vec![1u8, 10, 20, 30];
    expected.extend_from_slice(&4.0f32.to_bits().to_be_bytes());
    expected.extend_from_slice(&2u32.to_be_bytes());
    for (x, y) in [(1.0f32, 2.0f32), (-3.5, 0.25)] {
        expected.extend_from_slice(&x.to_bits().to_be_bytes());
        expected.extend_from_slice(&y.to_bits().to_be_bytes());
    }
    expected.extend_from_slice(&2u32.to_be_bytes());
    expected.extend_from_slice(&0.5f32.to_bits().to_be_bytes());
    expected.extend_from_slice(&0.75f32.to_bits().to_be_bytes());
    assert_eq!(bytes, expected);
}

#[test]
fn stroke_data_roundtrip() {
    let d = sample_data();
    let mut bytes = d.write_data();
    bytes.extend_from_slice(&[0xde, 0xad]);
    let back = StrokeData::parse(bytes).unwrap();
    assert_same_data(&back, &d);
}

#[test]
fn stroke_data_roundtrip_without_pressures() {
    let d = StrokeData::new(vec![v(0.0, 0.0)], None, 1.0f32.to_bits(), StrokeType::Eraser);
    let bytes = d.write_data();
    assert_eq!(bytes[0], 2);
    let back = StrokeData::parse(bytes).unwrap();
    assert_eq!(back.stroke_type, StrokeType::Eraser);
    assert_eq!(back.points, d.points);
    assert_eq!(back.pressures, Some(vec![]));
}

#[test]
fn stroke_data_errors() {
    assert_eq!(StrokeData::parse(vec![]).err(), Some(DecodeError::TruncatedStroke));
    assert_eq!(StrokeData::parse(vec![7, 0, 0]).err(), Some(DecodeError::UnknownStrokeType(7)));
    assert_eq!(StrokeData::parse(vec![1, 2, 3]).err(), Some(DecodeError::TruncatedStroke));
    let mut bytes = sample_data().write_data();
    bytes.pop();
    assert_eq!(StrokeData::parse(bytes).err(), Some(DecodeError::TruncatedStroke));
}

fn record(id_random: u32, timestamp: f64, ox: f32, oy: f32, data: &[u8]) -> Vec<u8> {
    let mut b = id_random.to_be_bytes().to_vec();
    b.extend_from_slice(&timestamp.to_bits().to_be_bytes());
    b.extend_from_slice(&ox.to_bits().to_be_bytes());
    b.extend_from_slice(&oy.to_bits().to_be_bytes());
    b.extend_from_slice(&(data.len() as u32).to_be_bytes());
    b.extend_from_slice(data);
    b
}

#[test]
fn load_file_stroke_record_roundtrip() {
    let data = sample_data().write_data();
    let mut bytes = record(77, 1_750_000_000.5, 3.0, -4.0, &data);
    bytes.push(0xaa);
    let mut r = WireReader::new(bytes);
    let owner = Some(String::from("peer-1"));
    let s = load_file::read_stroke(&mut r, &owner).unwrap();
    assert_eq!(s.metadata.id_random, 77);
    assert_eq!(f64::from_bits(s.metadata.timestamp), 1_750_000_000.5);
    assert_eq!(s.metadata.origin, v(3.0, -4.0));
    assert_eq!(s.metadata.owner, owner);
    assert_same_data(&s.data, &sample_data());
    assert_eq!(r.remaining(), 1);
}

#[test]
fn load_file_stroke_record_errors() {
    let mut short = WireReader::new(vec![0; 10]);
    assert_eq!(load_file::read_stroke(&mut short, &None).err(), Some(DecodeError::UnexpectedEof));
    let mut bytes = record(1, 1.0, 0.0, 0.0, &[1, 2, 3]);
    bytes.truncate(bytes.len() - 1);
    let mut r = WireReader::new(bytes);
    assert_eq!(load_file::read_stroke(&mut r, &None).err(), Some(DecodeError::TruncatedBlock));
    let mut r = WireReader::new(record(1, 1.0, 0.0, 0.0, &[9]));
    assert_eq!(load_file::read_stroke(&mut r, &None).err(), Some(DecodeError::UnknownStrokeType(9)));
}

#[test]
fn load_file_cutoff_time() {
    assert_eq!(OLDEST_LOADED_TIMESTAMP_BITS, 1749429383.719f64.to_bits());
    assert!(is_recent(1749429383.719f64.to_bits()));
    assert!(is_recent(1_800_000_000.0f64.to_bits()));
    assert!(!is_recent(1_700_000_000.0f64.to_bits()));
    assert!(!is_recent((-5.0f64).to_bits()));
    assert!(is_recent(f64::NAN.to_bits()));
}

fn string_block(s: &str) -> Vec<u8> {
    let mut b = (s.len() as u32).to_be_bytes().to_vec();
    b.extend_from_slice(s.as_bytes());
    b
}

#[test]
fn load_file_string_block() {
    let mut r = WireReader::new(string_block("chunk_1_2"));
    assert_eq!(load_file::read_string(&mut r), Ok(String::from("chunk_1_2")));
    let mut e = WireReader::new(string_block("\u{e9}t\u{e9}"));
    assert_eq!(load_file::read_string(&mut e), Ok(String::from("\u{e9}t\u{e9}")));
    let mut bad = WireReader::new(vec![0, 0, 0, 2, 0xc3, 0x28]);
    assert_eq!(load_file::read_string(&mut bad), Err(DecodeError::InvalidUtf8));
    let mut cut = WireReader::new(vec![0, 0, 0, 5, b'a']);
    assert_eq!(load_file::read_string(&mut cut), Err(DecodeError::TruncatedBlock));
}

fn save_file() -> Vec<u8> {
    let data = sample_data().write_data();
    let mut b = 0xfeed_beefu32.to_be_bytes().to_vec();
    b.extend_from_slice(&3u32.to_be_bytes());
    b.extend_from_slice(&string_block("0_0"));
    b.extend_from_slice(&2u32.to_be_bytes());
    // strokes drawn here: one recent, one too old
    b.push(0);
    b.extend_from_slice(&2u32.to_be_bytes());
    b.extend_from_slice(&record(1, 1_760_000_000.0, 0.0, 0.0, &data));
    b.extend_from_slice(&record(2, 1_600_000_000.0, 0.0, 0.0, &data));
    // strokes of a peer
    b.push(1);
    b.extend_from_slice(&string_block("bob"));
    b.extend_from_slice(&1u32.to_be_bytes());
    b.extend_from_slice(&record(3, 1_770_000_000.0, 1.0, 1.0, &data));
    b
}

#[test]
fn save_file_reads_chunks() {
    let mut f = SaveFileReader::open(save_file()).ok().unwrap();
    assert_eq!(f.magic, 0xfeed_beef);
    assert_eq!(f.version, 3);
    let chunk = f.next_chunk().unwrap().ok().unwrap();
    assert_eq!(chunk.chunk_id, "0_0");
    assert_eq!(chunk.strokes.len(), 2);
    assert_eq!(chunk.strokes[0].metadata.id_random, 1);
    assert_eq!(chunk.strokes[0].metadata.owner, None);
    assert_eq!(chunk.strokes[1].metadata.id_random, 3);
    assert_eq!(chunk.strokes[1].metadata.owner, Some(String::from("bob")));
    assert!(f.next_chunk().is_none());
}

#[test]
fn save_file_errors() {
    assert_eq!(SaveFileReader::open(vec![1, 2, 3]).err(), Some(DecodeError::UnexpectedEof));
    let mut bytes = save_file();
    bytes.push(0);
    let mut f = SaveFileReader::open(bytes).ok().unwrap();
    assert!(f.next_chunk().unwrap().is_ok());
    assert_eq!(f.next_chunk().unwrap().err(), Some(DecodeError::TrailingByte));
    let mut cut = save_file();
    cut.truncate(cut.len() - 3);
    let mut f = SaveFileReader::open(cut).ok().unwrap();
    assert_eq!(f.next_chunk().unwrap().err(), Some(DecodeError::TruncatedBlock));
}

fn canvas_stroke(id: u32, ts: f64, color: Option<[u8; 3]>, pts: &[(f32, f32)], pressures: Option<&[f32]>) -> Vec<u8> {
    let mut b = id.to_le_bytes().to_vec();
    b.extend_from_slice(&ts.to_le_bytes());
    b.extend_from_slice(&2.0f32.to_le_bytes());
    b.extend_from_slice(&5.0f32.to_le_bytes());
    b.extend_from_slice(&3.0f32.to_le_bytes());
    match color {
        Some(c) => {
            b.push(1);
            b.extend_from_slice(&c);
        }
        None => b.push(2),
    }
    b.extend_from_slice(&(pts.len() as u32).to_le_bytes());
    for (x, y) in pts {
        b.extend_from_slice(&x.to_le_bytes());
        b.extend_from_slice(&y.to_le_bytes());
    }
    match pressures {
        Some(p) => {
            b.push(1);
            b.extend_from_slice(&(p.len() as u32).to_le_bytes());
            for x in p {
                b.extend_from_slice(&x.to_le_bytes());
            }
        }
        None => b.push(0),
    }
    b
}

#[test]
fn canvas_stroke_negates_y() {
    let bytes = canvas_stroke(9, 1.5, Some([1, 2, 3]), &[(1.0, 2.0)], Some(&[0.5]));
    let mut f = CanvasReader::new(bytes);
    let s = save_load::read_stroke(&None, &mut f).unwrap();
    assert_eq!(s.metadata.id_random, 9);
    assert_eq!(s.metadata.origin, v(2.0, -5.0));
    assert_eq!(s.data.width, 3.0f32.to_bits());
    assert_eq!(s.data.stroke_type, paint(1, 2, 3));
    assert_eq!(s.data.points, vec![v(1.0, -2.0)]);
    assert_eq!(s.data.pressures, Some(vec![0.5f32.to_bits()]));
    assert_eq!(f.remaining(), 0);
}

#[test]
fn canvas_file_skips_empty_strokes() {
    let mut b = Vec::new();
    for h in [100u32, 0, 1] {
        b.extend_from_slice(&h.to_le_bytes());
    }
    b.extend_from_slice(&2u32.to_le_bytes());
    b.extend_from_slice(&canvas_stroke(1, 1.0, None, &[(0.0, 1.0)], None));
    b.extend_from_slice(&canvas_stroke(2, 1.0, None, &[], None));
    b.extend_from_slice(&1u32.to_le_bytes());
    b.push(0);
    b.extend_from_slice(b"alice\0");
    b.extend_from_slice(&1u32.to_le_bytes());
    b.extend_from_slice(&canvas_stroke(3, 2.0, Some([9, 9, 9]), &[(1.0, 1.0), (2.0, 2.0)], None));
    let strokes = save_load::read_canvas(b).unwrap();
    assert_eq!(strokes.len(), 2);
    assert_eq!(strokes[0].metadata.id_random, 1);
    assert_eq!(strokes[0].data.stroke_type, StrokeType::Eraser);
    assert_eq!(strokes[1].metadata.id_random, 3);
    assert_eq!(strokes[1].metadata.owner, Some(String::from("alice")));
}

#[test]
fn canvas_file_cut_short() {
    assert_eq!(save_load::read_canvas(vec![0; 8]).err(), Some(DecodeError::UnexpectedEof));
}
