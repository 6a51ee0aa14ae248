//! The save-file format: chunks of strokes, each stroke a record of metadata
//! followed by its length-prefixed drawing data.

use vstd::prelude::*;

use crate::byte_reader::WireReader;
use crate::error::DecodeError;
use crate::float_bits::f64_bits_is_nan;
use crate::text::string_from_utf8;
use vstd::utf8::{decode_utf8, valid_utf8};
use crate::stroke::{
    Stroke, StrokeData, StrokeMetadata, StrokeMetadataModel, StrokeModel, Vec2Bits,
    clone_owner, decode_stroke_data, encodable, lemma_stroke_data_roundtrip, normalized,
    owner_view, stroke_data_bytes,
};
use crate::wire::{be_u32, be_u64, lemma_be_u32_roundtrip, lemma_be_u64_roundtrip, lemma_skip_skip, u32_be_bytes,
    u64_be_bytes};

verus! {

/// The bytes of a stroke record: random tag, time, origin, then the drawing
/// data prefixed by its length.
pub open spec fn stroke_record_bytes(s: StrokeModel) -> Seq<u8> {
    record_layout(s.metadata, stroke_data_bytes(s.data))
}

/// The bytes of a stroke record whose drawing data is encoded as `data`.
pub open spec fn record_layout(m: StrokeMetadataModel, data: Seq<u8>) -> Seq<u8> {
    u32_be_bytes(m.id_random) + (u64_be_bytes(m.timestamp) + (u32_be_bytes(m.origin.x) + (
    u32_be_bytes(m.origin.y) + (u32_be_bytes(data.len() as u32) + data))))
}

/// Whether a stroke can be written as a record: its data encodes, and the
/// encoding's length fits in a `u32`.
pub open spec fn record_encodable(s: StrokeModel) -> bool {
    &&& encodable(s.data)
    &&& stroke_data_bytes(s.data).len() <= u32::MAX
}

/// Decodes a stroke record at the front of `b`, giving the stroke the owner
/// `owner`; also gives how many bytes the record takes.
pub open spec fn decode_stroke_record(b: Seq<u8>, owner: Option<Seq<char>>) -> Result<
    (StrokeModel, int),
    DecodeError,
> {
    if b.len() < 24 {
        Err(DecodeError::UnexpectedEof)
    } else {
        let len = be_u32(b.skip(20)) as int;
        let body = b.skip(24);
        if body.len() < len {
            Err(DecodeError::TruncatedBlock)
        } else {
            match decode_stroke_data(body.take(len)) {
                Ok(d) => Ok(
                    (
                        StrokeModel {
                            metadata: StrokeMetadataModel {
                                timestamp: be_u64(b.skip(4)),
                                id_random: be_u32(b),
                                owner: owner,
                                origin: Vec2Bits { x: be_u32(b.skip(12)), y: be_u32(b.skip(16)) },
                            },
                            data: d,
                        },
                        24 + len,
                    ),
                ),
                Err(e) => Err(e),
            }
        }
    }
}

/// What reading a stroke record from `before` leaves and returns.
pub open spec fn read_stroke_outcome(
    before: Seq<u8>,
    after: Seq<u8>,
    owner: Option<Seq<char>>,
    r: Result<Stroke, DecodeError>,
) -> bool {
    match decode_stroke_record(before, owner) {
        Ok((m, k)) => r matches Ok(s) && s@ == m && after == before.skip(k),
        Err(e) => r == Err::<Stroke, DecodeError>(e),
    }
}

/// Reads a stroke record and gives the stroke the owner `owner_id`.
pub fn read_stroke(reader: &mut WireReader, owner_id: &Option<String>) -> (r: Result<
    Stroke,
    DecodeError,
>)
    ensures
        read_stroke_outcome(old(reader)@, final(reader)@, owner_view(*owner_id), r),
{
    let ghost b = reader@;
    let id_random = match reader.read_u32() {
        Ok(v) => v,
        Err(e) => return Err(e),
    };
    let timestamp = match reader.read_f64_bits() {
        Ok(v) => v,
        Err(e) => return Err(e),
    };
    let origin_x = match reader.read_f32_bits() {
        Ok(v) => v,
        Err(e) => return Err(e),
    };
    let origin_y = match reader.read_f32_bits() {
        Ok(v) => v,
        Err(e) => return Err(e),
    };
    let data_len = match reader.read_u32() {
        Ok(v) => v,
        Err(e) => return Err(e),
    };
    proof {
        lemma_skip_skip(b, 4, 8);
        lemma_skip_skip(b, 12, 4);
        lemma_skip_skip(b, 16, 4);
        lemma_skip_skip(b, 20, 4);
    }
    let block = match reader.read(data_len as usize) {
        Ok(v) => v,
        Err(_) => return Err(DecodeError::TruncatedBlock),
    };
    proof {
        lemma_skip_skip(b, 24, data_len as int);
    }
    let data = match StrokeData::parse(block) {
        Ok(d) => d,
        Err(e) => return Err(e),
    };
    let s = Stroke {
        data: data,
        metadata: StrokeMetadata {
            timestamp: timestamp,
            id_random: id_random,
            owner: clone_owner(owner_id),
            origin: Vec2Bits { x: origin_x, y: origin_y },
        },
    };
    assert(s@ =~= decode_stroke_record(b, owner_view(*owner_id)).unwrap().0);
    Ok(s)
}

proof fn lemma_record_layout(m: StrokeMetadataModel, data: Seq<u8>, rest: Seq<u8>)
    requires
        data.len() <= u32::MAX,
    ensures
        ({
            let b = record_layout(m, data) + rest;
            &&& record_layout(m, data).len() == 24 + data.len()
            &&& b.len() >= 24
            &&& be_u32(b) == m.id_random
            &&& be_u64(b.skip(4)) == m.timestamp
            &&& be_u32(b.skip(12)) == m.origin.x
            &&& be_u32(b.skip(16)) == m.origin.y
            &&& be_u32(b.skip(20)) == data.len()
            &&& b.skip(24).len() >= data.len()
            &&& b.skip(24).take(data.len() as int) == data
            &&& b.skip(24 + data.len() as int) == rest
        }),
{
    let len = data.len() as u32;
    let s5 = data + rest;
    let s4 = u32_be_bytes(len) + s5;
    let s3 = u32_be_bytes(m.origin.y) + s4;
    let s2 = u32_be_bytes(m.origin.x) + s3;
    let s1 = u64_be_bytes(m.timestamp) + s2;
    let b = record_layout(m, data) + rest;
    assert(b =~= u32_be_bytes(m.id_random) + s1);
    lemma_be_u32_roundtrip(m.id_random, s1);
    lemma_be_u64_roundtrip(m.timestamp, s2);
    lemma_be_u32_roundtrip(m.origin.x, s3);
    lemma_be_u32_roundtrip(m.origin.y, s4);
    lemma_be_u32_roundtrip(len, s5);
    lemma_skip_skip(b, 4, 8);
    lemma_skip_skip(b, 12, 4);
    lemma_skip_skip(b, 16, 4);
    lemma_skip_skip(b, 20, 4);
    assert(s5.take(len as int) =~= data);
    assert(s5.skip(len as int) =~= rest);
    lemma_skip_skip(b, 24, len as int);
}

/// Reading back a written stroke record, whatever follows it, gives the
/// stroke back with the owner the reader assigns and its data as decoding
/// gives it (missing pressures as an empty list), and consumes exactly the
/// record.
pub proof fn lemma_stroke_record_roundtrip(s: StrokeModel, owner: Option<Seq<char>>, rest: Seq<u8>)
    requires
        record_encodable(s),
    ensures
        decode_stroke_record(stroke_record_bytes(s) + rest, owner) == Ok::<
            (StrokeModel, int),
            DecodeError,
        >(
            (
                StrokeModel {
                    metadata: StrokeMetadataModel { owner: owner, ..s.metadata },
                    data: normalized(s.data),
                },
                stroke_record_bytes(s).len() as int,
            ),
        ),
        (stroke_record_bytes(s) + rest).skip(stroke_record_bytes(s).len() as int) == rest,
{
    let data = stroke_data_bytes(s.data);
    lemma_record_layout(s.metadata, data, rest);
    lemma_stroke_data_roundtrip(s.data, Seq::<u8>::empty());
    assert(data + Seq::<u8>::empty() =~= data);
}

/// The bits of the `f64` 1749429383.719, the time before which saved strokes
/// are not loaded.
pub const OLDEST_LOADED_TIMESTAMP_BITS: u64 = 0x41da_118b_21ee_0419u64;

/// Whether the `f64` with bits `b` is less than the positive finite `f64`
/// with bits `t`. A number with the sign bit set is below any positive one
/// unless it is NaN; among numbers with the sign bit clear, IEEE 754 orders
/// the values as it orders the bits.
pub open spec fn f64_bits_below_positive(b: u64, t: u64) -> bool {
    !f64_bits_is_nan(b) && (b >> 63u64 == 1 || b < t)
}

/// Whether a saved stroke is loaded: it is not older than the cutoff.
pub open spec fn is_loaded(s: StrokeModel) -> bool {
    !f64_bits_below_positive(s.metadata.timestamp, OLDEST_LOADED_TIMESTAMP_BITS)
}

/// Whether a stroke with time bits `timestamp` is loaded.
pub fn is_recent(timestamp: u64) -> (r: bool)
    ensures
        r == !f64_bits_below_positive(timestamp, OLDEST_LOADED_TIMESTAMP_BITS),
{
    let exponent = (timestamp >> 52u64) & 0x7ffu64;
    let mantissa = timestamp & 0xf_ffff_ffff_ffffu64;
    let nan = exponent == 0x7ffu64 && mantissa != 0;
    let negative = timestamp >> 63u64 == 1;
    !(!nan && (negative || timestamp < OLDEST_LOADED_TIMESTAMP_BITS))
}

/// Decodes a string at the front of `b`: a `u32` length, then that many
/// bytes of UTF-8; also gives how many bytes it takes.
pub open spec fn decode_string_block(b: Seq<u8>) -> Result<(Seq<char>, int), DecodeError> {
    if b.len() < 4 {
        Err(DecodeError::UnexpectedEof)
    } else {
        let n = be_u32(b) as int;
        let body = b.skip(4);
        if body.len() < n {
            Err(DecodeError::TruncatedBlock)
        } else if !valid_utf8(body.take(n)) {
            Err(DecodeError::InvalidUtf8)
        } else {
            Ok((decode_utf8(body.take(n)), 4 + n))
        }
    }
}

/// Reads a string: a `u32` length, then that many bytes of UTF-8.
pub fn read_string(reader: &mut WireReader) -> (r: Result<String, DecodeError>)
    ensures
        match decode_string_block(old(reader)@) {
            Ok((s, k)) => r matches Ok(t) && t@ == s && final(reader)@ == old(reader)@.skip(k),
            Err(e) => r == Err::<String, DecodeError>(e),
        },
{
    let ghost b = reader@;
    let len = match reader.read_u32() {
        Ok(v) => v,
        Err(e) => return Err(e),
    };
    let slice = match reader.read(len as usize) {
        Ok(v) => v,
        Err(_) => return Err(DecodeError::TruncatedBlock),
    };
    proof {
        lemma_skip_skip(b, 4, len as int);
    }
    match string_from_utf8(slice.as_slice()) {
        Some(s) => Ok(s),
        None => Err(DecodeError::InvalidUtf8),
    }
}

/// Decodes `n` stroke records with the owner `owner`, keeping those that are
/// loaded; also gives how many bytes they take.
pub open spec fn decode_key_strokes(b: Seq<u8>, n: nat, owner: Option<Seq<char>>) -> Result<
    (Seq<StrokeModel>, int),
    DecodeError,
>
    decreases n,
{
    if n == 0 {
        Ok((Seq::empty(), 0))
    } else {
        match decode_key_strokes(b, (n - 1) as nat, owner) {
            Ok((s, k)) => match decode_stroke_record(b.skip(k), owner) {
                Ok((st, j)) => Ok(
                    (
                        if is_loaded(st) {
                            s.push(st)
                        } else {
                            s
                        },
                        k + j,
                    ),
                ),
                Err(e) => Err(e),
            },
            Err(e) => Err(e),
        }
    }
}

/// `n` stroke records with the owner `owner`, decoded one after the other
/// from the front of `b`, every one of them; also how many bytes they take.
pub open spec fn decode_records(b: Seq<u8>, n: nat, owner: Option<Seq<char>>) -> Result<
    (Seq<StrokeModel>, int),
    DecodeError,
>
    decreases n,
{
    if n == 0 {
        Ok((Seq::empty(), 0))
    } else {
        match decode_records(b, (n - 1) as nat, owner) {
            Ok((s, k)) => match decode_stroke_record(b.skip(k), owner) {
                Ok((st, j)) => Ok((s.push(st), k + j)),
                Err(e) => Err(e),
            },
            Err(e) => Err(e),
        }
    }
}

/// Reading an owner's strokes keeps every stroke record that is not older
/// than the cutoff, in order, and only those: the strokes kept are exactly
/// the loaded ones among all `n` records, and reading fails exactly where
/// decoding one of the records fails.
pub proof fn law_key_keeps_every_recent_stroke(b: Seq<u8>, n: nat, owner: Option<Seq<char>>)
    ensures
        match decode_records(b, n, owner) {
            Ok((all, k)) => all.len() == n && decode_key_strokes(b, n, owner) == Ok::<
                (Seq<StrokeModel>, int),
                DecodeError,
            >((all.filter(|st: StrokeModel| is_loaded(st)), k)),
            Err(e) => decode_key_strokes(b, n, owner) == Err::<(Seq<StrokeModel>, int), DecodeError>(e),
        },
    decreases n,
{
    if n == 0 {
        reveal(Seq::filter);
        assert(Seq::<StrokeModel>::empty().filter(|st: StrokeModel| is_loaded(st)) =~= Seq::<
            StrokeModel,
        >::empty());
    } else {
        law_key_keeps_every_recent_stroke(b, (n - 1) as nat, owner);
        if let Ok((all, k)) = decode_records(b, (n - 1) as nat, owner) {
            if let Ok((st, j)) = decode_stroke_record(b.skip(k), owner) {
                all.lemma_filter_push(st, |st: StrokeModel| is_loaded(st));
            }
        }
    }
}

/// Decodes the strokes of one owner in a chunk: a flag that says whether they
/// come from a peer, the peer's name if so, a count, then the records; also
/// gives how many bytes that takes.
pub open spec fn decode_key(b: Seq<u8>) -> Result<(Seq<StrokeModel>, int), DecodeError> {
    if b.len() < 1 {
        Err(DecodeError::UnexpectedEof)
    } else {
        let r = b.skip(1);
        let owner_part: Result<(Option<Seq<char>>, int), DecodeError> = if b[0] != 0 {
            match decode_string_block(r) {
                Ok((s, j)) => Ok((Some(s), j)),
                Err(e) => Err(e),
            }
        } else {
            Ok((None, 0))
        };
        match owner_part {
            Err(e) => Err(e),
            Ok((owner, j)) => {
                let r2 = r.skip(j);
                if r2.len() < 4 {
                    Err(DecodeError::UnexpectedEof)
                } else {
                    match decode_key_strokes(r2.skip(4), be_u32(r2) as nat, owner) {
                        Ok((s, k)) => Ok((s, 1 + j + 4 + k)),
                        Err(e) => Err(e),
                    }
                }
            },
        }
    }
}

/// Decodes `n` owners' strokes one after the other; also gives how many
/// bytes they take.
pub open spec fn decode_keys(b: Seq<u8>, n: nat) -> Result<(Seq<StrokeModel>, int), DecodeError>
    decreases n,
{
    if n == 0 {
        Ok((Seq::empty(), 0))
    } else {
        match decode_keys(b, (n - 1) as nat) {
            Ok((s, k)) => match decode_key(b.skip(k)) {
                Ok((g, j)) => Ok((s + g, k + j)),
                Err(e) => Err(e),
            },
            Err(e) => Err(e),
        }
    }
}

/// A chunk of a save file: its name and the loaded strokes in it.
pub struct ChunkRecord {
    pub chunk_id: String,
    pub strokes: Vec<Stroke>,
}

/// The mathematical value of a [`ChunkRecord`].
#[verifier::ext_equal]
pub struct ChunkRecordModel {
    pub chunk_id: Seq<char>,
    pub strokes: Seq<StrokeModel>,
}

/// The values of a list of strokes.
pub open spec fn record_strokes_view(v: Seq<Stroke>) -> Seq<StrokeModel> {
    v.map_values(|s: Stroke| s@)
}

impl View for ChunkRecord {
    type V = ChunkRecordModel;

    open spec fn view(&self) -> ChunkRecordModel {
        ChunkRecordModel { chunk_id: self.chunk_id@, strokes: record_strokes_view(self.strokes@) }
    }
}

/// Decodes a chunk: its name, a count of owners, then each owner's strokes;
/// also gives how many bytes it takes.
pub open spec fn decode_chunk(b: Seq<u8>) -> Result<(ChunkRecordModel, int), DecodeError> {
    match decode_string_block(b) {
        Err(e) => Err(e),
        Ok((id, j)) => {
            let r = b.skip(j);
            if r.len() < 4 {
                Err(DecodeError::UnexpectedEof)
            } else {
                match decode_keys(r.skip(4), be_u32(r) as nat) {
                    Ok((s, k)) => Ok((ChunkRecordModel { chunk_id: id, strokes: s }, j + 4 + k)),
                    Err(e) => Err(e),
                }
            }
        },
    }
}

proof fn lemma_record_len(b: Seq<u8>, owner: Option<Seq<char>>)
    ensures
        decode_stroke_record(b, owner) matches Ok((_, j)) ==> 0 <= j <= b.len(),
{
}

proof fn lemma_key_strokes_len(b: Seq<u8>, n: nat, owner: Option<Seq<char>>)
    ensures
        decode_key_strokes(b, n, owner) matches Ok((_, k)) ==> 0 <= k <= b.len(),
    decreases n,
{
    if n > 0 {
        lemma_key_strokes_len(b, (n - 1) as nat, owner);
        if let Ok((_, k)) = decode_key_strokes(b, (n - 1) as nat, owner) {
            lemma_record_len(b.skip(k), owner);
        }
    }
}

proof fn lemma_key_strokes_err(b: Seq<u8>, i: nat, owner: Option<Seq<char>>, n: nat)
    requires
        i < n,
        decode_key_strokes(b, i, owner) is Ok,
        decode_key_strokes(b, i + 1, owner) is Err,
    ensures
        decode_key_strokes(b, n, owner) == decode_key_strokes(b, i + 1, owner),
    decreases n - i,
{
    if n > i + 1 {
        lemma_key_strokes_err(b, i, owner, (n - 1) as nat);
    }
}

proof fn lemma_key_len(b: Seq<u8>)
    ensures
        decode_key(b) matches Ok((_, k)) ==> 0 <= k <= b.len(),
{
    if b.len() >= 1 {
        let r = b.skip(1);
        if b[0] != 0 {
            if let Ok((s, j)) = decode_string_block(r) {
                let r2 = r.skip(j);
                if r2.len() >= 4 {
                    lemma_key_strokes_len(r2.skip(4), be_u32(r2) as nat, Some(s));
                }
            }
        } else {
            if r.len() >= 4 {
                assert(r.skip(0) =~= r);
                lemma_key_strokes_len(r.skip(4), be_u32(r) as nat, None);
            }
        }
    }
}

proof fn lemma_keys_len(b: Seq<u8>, n: nat)
    ensures
        decode_keys(b, n) matches Ok((_, k)) ==> 0 <= k <= b.len(),
    decreases n,
{
    if n > 0 {
        lemma_keys_len(b, (n - 1) as nat);
        if let Ok((_, k)) = decode_keys(b, (n - 1) as nat) {
            lemma_key_len(b.skip(k));
        }
    }
}

proof fn lemma_keys_err(b: Seq<u8>, i: nat, n: nat)
    requires
        i < n,
        decode_keys(b, i) is Ok,
        decode_keys(b, i + 1) is Err,
    ensures
        decode_keys(b, n) == decode_keys(b, i + 1),
    decreases n - i,
{
    if n > i + 1 {
        lemma_keys_err(b, i, (n - 1) as nat);
    }
}

/// Reads `n` stroke records with the owner `owner_id`, keeping those that
/// are loaded.
pub fn read_key_strokes(reader: &mut WireReader, n: u32, owner_id: &Option<String>) -> (r: Result<
    Vec<Stroke>,
    DecodeError,
>)
    ensures
        match decode_key_strokes(old(reader)@, n as nat, owner_view(*owner_id)) {
            Ok((s, k)) => r matches Ok(v) && record_strokes_view(v@) == s && final(reader)@ == old(
                reader,
            )@.skip(k),
            Err(e) => r == Err::<Vec<Stroke>, DecodeError>(e),
        },
{
    let ghost b = reader@;
    let ghost owner = owner_view(*owner_id);
    let mut out: Vec<Stroke> = Vec::new();
    let ghost mut k: int = 0;
    let mut i: u32 = 0;
    assert(record_strokes_view(out@) =~= Seq::<StrokeModel>::empty());
    while i < n
        invariant
            b == old(reader)@,
            i <= n,
            owner == owner_view(*owner_id),
            decode_key_strokes(b, i as nat, owner) == Ok::<(Seq<StrokeModel>, int), DecodeError>(
                (record_strokes_view(out@), k),
            ),
            0 <= k <= b.len(),
            reader@ == b.skip(k),
        decreases n - i,
    {
        let stroke = match read_stroke(reader, owner_id) {
            Ok(s) => s,
            Err(e) => {
                proof {
                    lemma_key_strokes_err(b, i as nat, owner, n as nat);
                }
                return Err(e);
            },
        };
        let ghost j = decode_stroke_record(b.skip(k), owner).unwrap().1;
        proof {
            lemma_record_len(b.skip(k), owner);
            lemma_skip_skip(b, k, j);
        }
        let ghost prev = out@;
        if is_recent(stroke.metadata.timestamp) {
            out.push(stroke);
            assert(record_strokes_view(out@) =~= record_strokes_view(prev).push(out@.last()@));
        }
        proof {
            k = k + j;
        }
        i = i + 1;
    }
    Ok(out)
}

/// Reads the strokes of one owner in a chunk.
pub fn read_key(reader: &mut WireReader) -> (r: Result<Vec<Stroke>, DecodeError>)
    ensures
        match decode_key(old(reader)@) {
            Ok((s, k)) => r matches Ok(v) && record_strokes_view(v@) == s && final(reader)@ == old(
                reader,
            )@.skip(k),
            Err(e) => r == Err::<Vec<Stroke>, DecodeError>(e),
        },
{
    let ghost b = reader@;
    let is_remote = match reader.read_bool() {
        Ok(v) => v,
        Err(e) => return Err(e),
    };
    let ghost r = b.skip(1);
    let mut owner_id: Option<String> = None;
    let ghost mut j: int = 0;
    if is_remote {
        let name = match read_string(reader) {
            Ok(s) => s,
            Err(e) => return Err(e),
        };
        proof {
            j = decode_string_block(r).unwrap().1;
        }
        owner_id = Some(name);
    } else {
        assert(r.skip(0) =~= r);
    }
    let ghost r2 = r.skip(j);
    let num_strokes = match reader.read_u32() {
        Ok(v) => v,
        Err(e) => return Err(e),
    };
    let strokes = match read_key_strokes(reader, num_strokes, &owner_id) {
        Ok(v) => v,
        Err(e) => return Err(e),
    };
    proof {
        let k = decode_key_strokes(r2.skip(4), num_strokes as nat, owner_view(owner_id)).unwrap().1;
        lemma_key_strokes_len(r2.skip(4), num_strokes as nat, owner_view(owner_id));
        lemma_skip_skip(r2, 4, k);
        lemma_skip_skip(r, j, 4 + k);
        lemma_skip_skip(b, 1, j + 4 + k);
    }
    Ok(strokes)
}

/// Reads `n` owners' strokes and joins them in order.
pub fn read_keys(reader: &mut WireReader, n: u32) -> (r: Result<Vec<Stroke>, DecodeError>)
    ensures
        match decode_keys(old(reader)@, n as nat) {
            Ok((s, k)) => r matches Ok(v) && record_strokes_view(v@) == s && final(reader)@ == old(
                reader,
            )@.skip(k),
            Err(e) => r == Err::<Vec<Stroke>, DecodeError>(e),
        },
{
    let ghost b = reader@;
    let mut out: Vec<Stroke> = Vec::new();
    let ghost mut k: int = 0;
    let mut i: u32 = 0;
    assert(record_strokes_view(out@) =~= Seq::<StrokeModel>::empty());
    while i < n
        invariant
            b == old(reader)@,
            i <= n,
            decode_keys(b, i as nat) == Ok::<(Seq<StrokeModel>, int), DecodeError>(
                (record_strokes_view(out@), k),
            ),
            0 <= k <= b.len(),
            reader@ == b.skip(k),
        decreases n - i,
    {
        let mut group = match read_key(reader) {
            Ok(g) => g,
            Err(e) => {
                proof {
                    lemma_keys_err(b, i as nat, n as nat);
                }
                return Err(e);
            },
        };
        let ghost j = decode_key(b.skip(k)).unwrap().1;
        proof {
            lemma_key_len(b.skip(k));
            lemma_skip_skip(b, k, j);
        }
        let ghost prev = out@;
        let ghost g = group@;
        out.append(&mut group);
        assert(record_strokes_view(out@) =~= record_strokes_view(prev) + record_strokes_view(g));
        proof {
            k = k + j;
        }
        i = i + 1;
    }
    Ok(out)
}

/// Reads one chunk of a save file.
pub fn read_chunk(reader: &mut WireReader) -> (r: Result<ChunkRecord, DecodeError>)
    ensures
        match decode_chunk(old(reader)@) {
            Ok((c, k)) => r matches Ok(v) && v@ == c && final(reader)@ == old(reader)@.skip(k),
            Err(e) => r == Err::<ChunkRecord, DecodeError>(e),
        },
{
    let ghost b = reader@;
    let chunk_id = match read_string(reader) {
        Ok(s) => s,
        Err(e) => return Err(e),
    };
    let ghost j = decode_string_block(b).unwrap().1;
    let ghost r = b.skip(j);
    let num_keys = match reader.read_u32() {
        Ok(v) => v,
        Err(e) => return Err(e),
    };
    let strokes = match read_keys(reader, num_keys) {
        Ok(v) => v,
        Err(e) => return Err(e),
    };
    proof {
        let k = decode_keys(r.skip(4), num_keys as nat).unwrap().1;
        lemma_keys_len(r.skip(4), num_keys as nat);
        lemma_skip_skip(r, 4, k);
        lemma_skip_skip(b, j, 4 + k);
    }
    let c = ChunkRecord { chunk_id, strokes };
    assert(c@ =~= decode_chunk(b).unwrap().0);
    Ok(c)
}

/// A save file being read chunk by chunk, after its header.
pub struct SaveFileReader {
    /// The bytes after the header that are not read yet.
    pub reader: WireReader,
    /// The first `u32` of the file.
    pub magic: u32,
    /// The second `u32` of the file.
    pub version: u32,
}

impl View for SaveFileReader {
    type V = Seq<u8>;

    open spec fn view(&self) -> Seq<u8> {
        self.reader@
    }
}

impl SaveFileReader {
    /// Reads the header of a save file: a magic number and a version.
    pub fn open(bytes: Vec<u8>) -> (r: Result<SaveFileReader, DecodeError>)
        ensures
            bytes@.len() < 8 ==> r == Err::<SaveFileReader, DecodeError>(DecodeError::UnexpectedEof),
            bytes@.len() >= 8 ==> (r matches Ok(f) && f@ == bytes@.skip(8) && f.magic == be_u32(
                bytes@,
            ) && f.version == be_u32(bytes@.skip(4))),
    {
        let ghost b = bytes@;
        let mut reader = WireReader::new(bytes);
        let magic = match reader.read_u32() {
            Ok(v) => v,
            Err(e) => return Err(e),
        };
        let version = match reader.read_u32() {
            Ok(v) => v,
            Err(e) => return Err(e),
        };
        proof {
            lemma_skip_skip(b, 4, 4);
        }
        Ok(SaveFileReader { reader, magic, version })
    }

    /// Reads the next chunk: nothing when no byte is left, and an error when
    /// a single byte is left.
    pub fn next_chunk(&mut self) -> (r: Option<Result<ChunkRecord, DecodeError>>)
        ensures
            old(self)@.len() == 0 ==> r is None,
            old(self)@.len() == 1 ==> r == Some(
                Err::<ChunkRecord, DecodeError>(DecodeError::TrailingByte),
            ),
            old(self)@.len() >= 2 ==> match decode_chunk(old(self)@) {
                Ok((c, k)) => r matches Some(Ok(v)) && v@ == c && final(self)@ == old(self)@.skip(
                    k,
                ),
                Err(e) => r == Some(Err::<ChunkRecord, DecodeError>(e)),
            },
    {
        let left = self.reader.remaining();
        if left == 0 {
            return None;
        }
        if left == 1 {
            return Some(Err(DecodeError::TrailingByte));
        }
        Some(read_chunk(&mut self.reader))
    }
}

} // verus!
