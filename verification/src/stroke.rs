//! Strokes: what was drawn, by whom and when, and the binary encoding of the
//! drawing data that is stored and sent between peers.

use vstd::prelude::*;

use crate::byte_reader::WireReader;
use crate::byte_writer::WireWriter;
use crate::error::{DecodeError, view_result};
use crate::wire::{be_u32, lemma_be_u32_roundtrip, lemma_skip_concat, lemma_skip_skip, u32_be_bytes};

verus! {

/// An sRGB colour without alpha, one byte per channel.
#[derive(Clone, Copy, Debug, PartialEq, Eq, Structural)]
pub struct Rgb8 {
    pub r: u8,
    pub g: u8,
    pub b: u8,
}

/// A 2D vector of two `f32`, each held by its bits.
#[derive(Clone, Copy, Debug, PartialEq, Eq, Structural)]
pub struct Vec2Bits {
    pub x: u32,
    pub y: u32,
}

/// What a stroke does to the canvas.
#[derive(Clone, Copy, Debug, PartialEq, Eq, Structural)]
pub enum StrokeType {
    /// Paints in a colour.
    Paint(Rgb8),
    /// Erases.
    Eraser,
}

/// The drawing data of a stroke: its kind, its width (bits of an `f32`), its
/// points relative to the stroke's origin, and optionally one pressure
/// (bits of an `f32`) per point.
pub struct StrokeData {
    pub stroke_type: StrokeType,
    pub width: u32,
    pub points: Vec<Vec2Bits>,
    pub pressures: Option<Vec<u32>>,
}

/// The mathematical value of a [`StrokeData`].
#[verifier::ext_equal]
pub struct StrokeDataModel {
    pub stroke_type: StrokeType,
    pub width: u32,
    pub points: Seq<Vec2Bits>,
    pub pressures: Option<Seq<u32>>,
}

impl View for StrokeData {
    type V = StrokeDataModel;

    open spec fn view(&self) -> StrokeDataModel {
        StrokeDataModel {
            stroke_type: self.stroke_type,
            width: self.width,
            points: self.points@,
            pressures: match self.pressures {
                Some(p) => Some(p@),
                None => None,
            },
        }
    }
}

/// The pressures of a stroke, none standing for an empty list.
pub open spec fn pressures_or_empty(p: Option<Seq<u32>>) -> Seq<u32> {
    match p {
        Some(s) => s,
        None => Seq::empty(),
    }
}

/// A stroke's data as decoding gives it back: missing pressures become an
/// empty list.
pub open spec fn normalized(d: StrokeDataModel) -> StrokeDataModel {
    StrokeDataModel { pressures: Some(pressures_or_empty(d.pressures)), ..d }
}

/// Whether a stroke's data can be encoded: its counts fit in a `u32`.
pub open spec fn encodable(d: StrokeDataModel) -> bool {
    &&& d.points.len() <= u32::MAX
    &&& pressures_or_empty(d.pressures).len() <= u32::MAX
}

/// The leading bytes that name the kind of a stroke: `1 r g b` or `2`.
pub open spec fn stroke_type_bytes(t: StrokeType) -> Seq<u8> {
    match t {
        StrokeType::Paint(c) => seq![1u8, c.r, c.g, c.b],
        StrokeType::Eraser => seq![2u8],
    }
}

/// The bytes of a point: `x` then `y`.
pub open spec fn point_bytes(p: Vec2Bits) -> Seq<u8> {
    u32_be_bytes(p.x) + u32_be_bytes(p.y)
}

/// The bytes of a list of points, one after the other.
pub open spec fn points_bytes(ps: Seq<Vec2Bits>) -> Seq<u8>
    decreases ps.len(),
{
    if ps.len() == 0 {
        Seq::empty()
    } else {
        points_bytes(ps.drop_last()) + point_bytes(ps.last())
    }
}

/// The bytes of a list of `u32`, one after the other.
pub open spec fn u32s_bytes(vs: Seq<u32>) -> Seq<u8>
    decreases vs.len(),
{
    if vs.len() == 0 {
        Seq::empty()
    } else {
        u32s_bytes(vs.drop_last()) + u32_be_bytes(vs.last())
    }
}

/// The encoding of what follows a stroke's kind: width, point count, points,
/// pressure count, pressures.
pub open spec fn stroke_body_bytes(d: StrokeDataModel) -> Seq<u8> {
    let ps = pressures_or_empty(d.pressures);
    u32_be_bytes(d.width) + (u32_be_bytes(d.points.len() as u32) + (points_bytes(d.points) + (
    u32_be_bytes(ps.len() as u32) + u32s_bytes(ps))))
}

/// The encoding of a stroke's data: its kind, then the rest.
pub open spec fn stroke_data_bytes(d: StrokeDataModel) -> Seq<u8> {
    stroke_type_bytes(d.stroke_type) + stroke_body_bytes(d)
}

/// The point whose bytes start `k` bytes into `b`.
pub open spec fn point_at(b: Seq<u8>, k: int) -> Vec2Bits {
    Vec2Bits { x: be_u32(b.skip(k)), y: be_u32(b.skip(k + 4)) }
}

/// Decodes what follows the kind of a stroke.
#[verifier::opaque]
pub open spec fn decode_stroke_body(t: StrokeType, b: Seq<u8>) -> Result<
    StrokeDataModel,
    DecodeError,
> {
    if b.len() < 8 {
        Err(DecodeError::TruncatedStroke)
    } else {
        let width = be_u32(b);
        let n = be_u32(b.skip(4)) as int;
        let r = b.skip(8);
        if r.len() < 8 * n {
            Err(DecodeError::TruncatedStroke)
        } else {
            let r2 = r.skip(8 * n);
            if r2.len() < 4 {
                Err(DecodeError::TruncatedStroke)
            } else {
                let m = be_u32(r2) as int;
                let r3 = r2.skip(4);
                if r3.len() < 4 * m {
                    Err(DecodeError::TruncatedStroke)
                } else {
                    Ok(
                        StrokeDataModel {
                            stroke_type: t,
                            width: width,
                            points: Seq::new(n as nat, |i: int| point_at(r, 8 * i)),
                            pressures: Some(Seq::new(m as nat, |i: int| be_u32(r3.skip(4 * i)))),
                        },
                    )
                }
            }
        }
    }
}

/// Decodes a stroke's data from the front of `b`; bytes after it are ignored.
pub open spec fn decode_stroke_data(b: Seq<u8>) -> Result<StrokeDataModel, DecodeError> {
    if b.len() < 1 {
        Err(DecodeError::TruncatedStroke)
    } else if b[0] == 1 {
        if b.len() < 4 {
            Err(DecodeError::TruncatedStroke)
        } else {
            decode_stroke_body(StrokeType::Paint(Rgb8 { r: b[1], g: b[2], b: b[3] }), b.skip(4))
        }
    } else if b[0] == 2 {
        decode_stroke_body(StrokeType::Eraser, b.skip(1))
    } else {
        Err(DecodeError::UnknownStrokeType(b[0]))
    }
}

/// The bytes of a list of points hold each point at its place.
#[verifier::rlimit(40)]
pub proof fn lemma_points_bytes(ps: Seq<Vec2Bits>, tail: Seq<u8>)
    ensures
        points_bytes(ps).len() == 8 * ps.len(),
        forall|i: int| 0 <= i < ps.len() ==> #[trigger] point_at(points_bytes(ps) + tail, 8 * i) == ps[i],
    decreases ps.len(),
{
    if ps.len() > 0 {
        let init = ps.drop_last();
        let p = ps.last();
        let tail2 = point_bytes(p) + tail;
        lemma_points_bytes(init, tail2);
        let pb = points_bytes(ps);
        assert(pb + tail =~= points_bytes(init) + tail2);
        assert forall|i: int| 0 <= i < ps.len() implies #[trigger] point_at(pb + tail, 8 * i)
            == ps[i] by {
            if i < ps.len() - 1 {
                assert(init[i] == ps[i]);
            } else {
                let s = points_bytes(init) + tail2;
                lemma_skip_concat(points_bytes(init), tail2, 8 * i);
                lemma_be_u32_roundtrip(p.x, u32_be_bytes(p.y) + tail);
                assert(tail2 =~= u32_be_bytes(p.x) + (u32_be_bytes(p.y) + tail));
                lemma_skip_concat(u32_be_bytes(p.x), u32_be_bytes(p.y) + tail, 4);
                lemma_skip_skip(s, 8 * i, 4);
                lemma_be_u32_roundtrip(p.y, tail);
            }
        }
    }
}

/// The bytes of a list of `u32` hold each value at its place.
pub proof fn lemma_u32s_bytes(vs: Seq<u32>, tail: Seq<u8>)
    ensures
        u32s_bytes(vs).len() == 4 * vs.len(),
        forall|i: int| 0 <= i < vs.len() ==> #[trigger] be_u32((u32s_bytes(vs) + tail).skip(4 * i))
            == vs[i],
    decreases vs.len(),
{
    if vs.len() > 0 {
        let init = vs.drop_last();
        let v = vs.last();
        let tail2 = u32_be_bytes(v) + tail;
        lemma_u32s_bytes(init, tail2);
        let vb = u32s_bytes(vs);
        assert(vb + tail =~= u32s_bytes(init) + tail2);
        assert forall|i: int| 0 <= i < vs.len() implies #[trigger] be_u32(
            (vb + tail).skip(4 * i),
        ) == vs[i] by {
            if i < vs.len() - 1 {
                assert(init[i] == vs[i]);
            } else {
                lemma_skip_concat(u32s_bytes(init), tail2, 4 * i);
                lemma_be_u32_roundtrip(v, tail);
            }
        }
    }
}

proof fn lemma_stroke_body_roundtrip(d: StrokeDataModel, rest: Seq<u8>)
    requires
        encodable(d),
    ensures
        decode_stroke_body(d.stroke_type, stroke_body_bytes(d) + rest) == Ok::<
            StrokeDataModel,
            DecodeError,
        >(normalized(d)),
{
    let ps = pressures_or_empty(d.pressures);
    let n = d.points.len() as u32;
    let m = ps.len() as u32;
    let s5 = u32s_bytes(ps) + rest;
    let s4 = u32_be_bytes(m) + s5;
    let s3 = points_bytes(d.points) + s4;
    let s2 = u32_be_bytes(n) + s3;
    let s1 = u32_be_bytes(d.width) + s2;
    assert(stroke_body_bytes(d) + rest =~= s1);
    lemma_be_u32_roundtrip(d.width, s2);
    lemma_be_u32_roundtrip(n, s3);
    lemma_be_u32_roundtrip(m, s5);
    assert(s1.skip(8) == s3) by {
        lemma_skip_skip(s1, 4, 4);
    }
    assert(be_u32(s1.skip(4)) == n);
    let pts = Seq::new(n as nat, |i: int| point_at(s3, 8 * i));
    assert(pts =~= d.points && s3.len() >= 8 * n && s3.skip(8 * n) == s4) by {
        lemma_points_bytes(d.points, s4);
        lemma_skip_concat(points_bytes(d.points), s4, 0);
    }
    let prs = Seq::new(m as nat, |i: int| be_u32(s5.skip(4 * i)));
    assert(prs =~= ps && s5.len() >= 4 * m) by {
        lemma_u32s_bytes(ps, rest);
    }
    assert(s4.skip(4) == s5);
    let expected = StrokeDataModel {
        stroke_type: d.stroke_type,
        width: d.width,
        points: pts,
        pressures: Some(prs),
    };
    assert(expected == normalized(d));
    assert(decode_stroke_body(d.stroke_type, s1) == Ok::<StrokeDataModel, DecodeError>(expected)) by {
        reveal(decode_stroke_body);
    }
}

/// Decoding the encoding of a stroke's data, whatever follows it, gives the
/// data back, with missing pressures as an empty list.
pub proof fn lemma_stroke_data_roundtrip(d: StrokeDataModel, rest: Seq<u8>)
    requires
        encodable(d),
    ensures
        decode_stroke_data(stroke_data_bytes(d) + rest) == Ok::<StrokeDataModel, DecodeError>(
            normalized(d),
        ),
{
    let s1 = stroke_body_bytes(d) + rest;
    let tb = stroke_type_bytes(d.stroke_type);
    let b = stroke_data_bytes(d) + rest;
    assert(b =~= tb + s1);
    lemma_stroke_body_roundtrip(d, rest);
    lemma_skip_concat(tb, s1, 0);
    match d.stroke_type {
        StrokeType::Paint(c) => {
            assert(b[0] == 1u8 && b[1] == c.r && b[2] == c.g && b[3] == c.b);
        },
        StrokeType::Eraser => {
            assert(b[0] == 2u8);
        },
    }
}

impl StrokeData {
    /// A stroke's data from its parts.
    pub fn new(
        points: Vec<Vec2Bits>,
        pressures: Option<Vec<u32>>,
        width: u32,
        stroke_type: StrokeType,
    ) -> (d: StrokeData)
        ensures
            d.points@ == points@,
            d.pressures == pressures,
            d.width == width,
            d.stroke_type == stroke_type,
    {
        StrokeData { points: points, width: width, pressures: pressures, stroke_type: stroke_type }
    }

    fn read_body(reader: &mut WireReader, t: StrokeType) -> (r: Result<StrokeData, DecodeError>)
        ensures
            view_result(r) == decode_stroke_body(t, old(reader)@),
    {
        proof {
            reveal(decode_stroke_body);
        }
        let ghost b = reader@;
        let width = match reader.read_u32() {
            Ok(v) => v,
            Err(_) => return Err(DecodeError::TruncatedStroke),
        };
        let n = match reader.read_u32() {
            Ok(v) => v,
            Err(_) => return Err(DecodeError::TruncatedStroke),
        };
        proof {
            lemma_skip_skip(b, 4, 4);
        }
        let ghost r = b.skip(8);
        if (n as u64) * 8 > reader.remaining() as u64 {
            return Err(DecodeError::TruncatedStroke);
        }
        let mut points: Vec<Vec2Bits> = Vec::new();
        let mut i: u32 = 0;
        while i < n
            invariant
                i <= n,
                r.len() >= 8 * n,
                reader@ == r.skip(8 * i),
                points@ == Seq::new(i as nat, |j: int| point_at(r, 8 * j)),
            decreases n - i,
        {
            proof {
                lemma_skip_skip(r, 8 * i, 4);
                lemma_skip_skip(r, 8 * i + 4, 4);
            }
            let x = match reader.read_u32() {
                Ok(v) => v,
                Err(_) => return Err(DecodeError::TruncatedStroke),
            };
            let y = match reader.read_u32() {
                Ok(v) => v,
                Err(_) => return Err(DecodeError::TruncatedStroke),
            };
            points.push(Vec2Bits { x, y });
            i = i + 1;
            assert(points@ =~= Seq::new(i as nat, |j: int| point_at(r, 8 * j)));
        }
        let ghost r2 = r.skip(8 * n);
        let m = match reader.read_u32() {
            Ok(v) => v,
            Err(_) => return Err(DecodeError::TruncatedStroke),
        };
        let ghost r3 = r2.skip(4);
        if (m as u64) * 4 > reader.remaining() as u64 {
            return Err(DecodeError::TruncatedStroke);
        }
        let mut pressures: Vec<u32> = Vec::new();
        let mut k: u32 = 0;
        while k < m
            invariant
                k <= m,
                r3.len() >= 4 * m,
                reader@ == r3.skip(4 * k),
                pressures@ == Seq::new(k as nat, |j: int| be_u32(r3.skip(4 * j))),
            decreases m - k,
        {
            proof {
                lemma_skip_skip(r3, 4 * k, 4);
            }
            let p = match reader.read_u32() {
                Ok(v) => v,
                Err(_) => return Err(DecodeError::TruncatedStroke),
            };
            pressures.push(p);
            k = k + 1;
            assert(pressures@ =~= Seq::new(k as nat, |j: int| be_u32(r3.skip(4 * j))));
        }
        let d = StrokeData { stroke_type: t, width, points, pressures: Some(pressures) };
        assert(d@ =~= decode_stroke_body(t, b).unwrap());
        Ok(d)
    }

    /// Decodes a stroke's data from the front of `data`; bytes after it are
    /// ignored. Bytes that hold no stroke's data (an unknown kind byte, or
    /// data cut short) give an error, which the drawing program treats as
    /// fatal.
    pub fn parse(data: Vec<u8>) -> (r: Result<StrokeData, DecodeError>)
        ensures
            view_result(r) == decode_stroke_data(data@),
    {
        let ghost b = data@;
        let mut reader = WireReader::new(data);
        let tag = match reader.read_u8() {
            Ok(t) => t,
            Err(_) => return Err(DecodeError::TruncatedStroke),
        };
        if tag == 1 {
            let r = match reader.read_u8() {
                Ok(v) => v,
                Err(_) => return Err(DecodeError::TruncatedStroke),
            };
            let g = match reader.read_u8() {
                Ok(v) => v,
                Err(_) => return Err(DecodeError::TruncatedStroke),
            };
            let bl = match reader.read_u8() {
                Ok(v) => v,
                Err(_) => return Err(DecodeError::TruncatedStroke),
            };
            proof {
                lemma_skip_skip(b, 1, 1);
                lemma_skip_skip(b, 2, 1);
                lemma_skip_skip(b, 3, 1);
            }
            Self::read_body(&mut reader, StrokeType::Paint(Rgb8 { r, g, b: bl }))
        } else if tag == 2 {
            Self::read_body(&mut reader, StrokeType::Eraser)
        } else {
            Err(DecodeError::UnknownStrokeType(tag))
        }
    }

    /// Appends the encoding of this stroke's data to `w`.
    pub fn write_to(&self, w: &mut WireWriter)
        requires
            encodable(self@),
        ensures
            final(w)@ == old(w)@ + stroke_data_bytes(self@),
    {
        let ghost start = w@;
        match self.stroke_type {
            StrokeType::Paint(c) => {
                w.write_u8(1);
                w.write_u8(c.r);
                w.write_u8(c.g);
                w.write_u8(c.b);
            },
            StrokeType::Eraser => {
                w.write_u8(2);
            },
        }
        assert(w@ =~= start + stroke_type_bytes(self.stroke_type));
        let ghost s1 = w@;
        w.write_f32_bits(self.width);
        w.write_u32(self.points.len() as u32);
        let ghost s2 = w@;
        let mut i: usize = 0;
        while i < self.points.len()
            invariant
                i <= self.points@.len(),
                w@ == s2 + points_bytes(self.points@.take(i as int)),
            decreases self.points.len() - i,
        {
            let p = self.points[i];
            w.write_f32_bits(p.x);
            w.write_f32_bits(p.y);
            proof {
                let t = self.points@.take(i + 1);
                assert(t.drop_last() =~= self.points@.take(i as int));
                assert(t.last() == p);
            }
            i = i + 1;
            assert(w@ =~= s2 + points_bytes(self.points@.take(i as int)));
        }
        assert(self.points@.take(i as int) =~= self.points@);
        let ghost s3 = w@;
        match &self.pressures {
            Some(ps) => {
                w.write_u32(ps.len() as u32);
                let ghost s4 = w@;
                let mut k: usize = 0;
                while k < ps.len()
                    invariant
                        k <= ps@.len(),
                        w@ == s4 + u32s_bytes(ps@.take(k as int)),
                    decreases ps.len() - k,
                {
                    let v = ps[k];
                    w.write_f32_bits(v);
                    proof {
                        let t = ps@.take(k + 1);
                        assert(t.drop_last() =~= ps@.take(k as int));
                    }
                    k = k + 1;
                    assert(w@ =~= s4 + u32s_bytes(ps@.take(k as int)));
                }
                assert(ps@.take(k as int) =~= ps@);
            },
            None => {
                w.write_u32(0);
                assert(u32s_bytes(Seq::<u32>::empty()) =~= Seq::<u8>::empty());
            },
        }
        assert(w@ =~= old(w)@ + stroke_data_bytes(self@));
    }

    /// The encoding of this stroke's data.
    pub fn write_data(&self) -> (bytes: Vec<u8>)
        requires
            encodable(self@),
        ensures
            bytes@ == stroke_data_bytes(self@),
    {
        let mut w = WireWriter::new();
        self.write_to(&mut w);
        assert(w@ =~= stroke_data_bytes(self@));
        w.into_bytes()
    }
}

/// Who drew a stroke and when: the time (bits of an `f64`, seconds since
/// the epoch), a random tag that tells apart strokes begun at the same time,
/// the peer it came from (none for the local user), and its origin on the
/// canvas (bits of two `f32`).
pub struct StrokeMetadata {
    pub timestamp: u64,
    pub id_random: u32,
    pub owner: Option<String>,
    pub origin: Vec2Bits,
}

/// The mathematical value of a [`StrokeMetadata`].
#[verifier::ext_equal]
pub struct StrokeMetadataModel {
    pub timestamp: u64,
    pub id_random: u32,
    pub owner: Option<Seq<char>>,
    pub origin: Vec2Bits,
}

/// An owner as text, or none.
pub open spec fn owner_view(o: Option<String>) -> Option<Seq<char>> {
    match o {
        Some(s) => Some(s@),
        None => None,
    }
}

impl View for StrokeMetadata {
    type V = StrokeMetadataModel;

    open spec fn view(&self) -> StrokeMetadataModel {
        StrokeMetadataModel {
            timestamp: self.timestamp,
            id_random: self.id_random,
            owner: owner_view(self.owner),
            origin: self.origin,
        }
    }
}

/// A stroke: who drew it and what was drawn.
pub struct Stroke {
    pub metadata: StrokeMetadata,
    pub data: StrokeData,
}

/// The mathematical value of a [`Stroke`].
#[verifier::ext_equal]
pub struct StrokeModel {
    pub metadata: StrokeMetadataModel,
    pub data: StrokeDataModel,
}

impl View for Stroke {
    type V = StrokeModel;

    open spec fn view(&self) -> StrokeModel {
        StrokeModel { metadata: self.metadata@, data: self.data@ }
    }
}

/// A copy of an optional owner.
pub fn clone_owner(o: &Option<String>) -> (c: Option<String>)
    ensures
        owner_view(c) == owner_view(*o),
{
    match o {
        Some(s) => Some(s.clone()),
        None => None,
    }
}

/// Where a stroke came from.
#[derive(Clone, Copy, Debug, PartialEq, Eq, Structural)]
pub enum StrokeSource {
    /// Drawn here.
    User,
    /// Loaded from storage.
    Storage,
    /// Received from a peer.
    Remote,
}

/// The triangles of a stroke: vertices, indices into them three per
/// triangle, and one colour per vertex. Vertex and colour types are left open
/// (they hold floating-point numbers).
pub struct StrokeMesh<V, C> {
    pub vertices: Vec<V>,
    pub indices: Vec<u32>,
    pub colors: Vec<C>,
}

impl<V, C> StrokeMesh<V, C> {
    /// A mesh from its parts.
    pub fn new(vertices: Vec<V>, indices: Vec<u32>, colors: Vec<C>) -> (m: StrokeMesh<V, C>)
        ensures
            m.vertices@ == vertices@,
            m.indices@ == indices@,
            m.colors@ == colors@,
    {
        StrokeMesh { vertices, indices, colors }
    }
}

/// Each index shifted by `offset`.
pub open spec fn shifted(indices: Seq<u32>, offset: u32) -> Seq<u32> {
    Seq::new(indices.len(), |i: int| (indices[i] + offset) as u32)
}

/// Whether every index shifted by `offset` still fits in a `u32`.
pub open spec fn shift_fits(indices: Seq<u32>, offset: int) -> bool {
    forall|i: int| 0 <= i < indices.len() ==> indices[i] + offset <= u32::MAX
}

impl<V, C> StrokeMesh<V, C> {
    /// Appends the mesh of one more stroke: its vertices and colours at the
    /// end, and its indices shifted past the vertices already there. Gives
    /// the place of its first vertex and its vertex count; gives nothing and
    /// changes nothing when a count or a shifted index would not fit in a
    /// `u32`.
    pub fn append_shifted(&mut self, verts: Vec<V>, colors: Vec<C>, indices: &Vec<u32>) -> (r: Option<
        (u32, u32),
    >)
        ensures
            r is None <==> (old(self).vertices@.len() > u32::MAX || verts@.len() > u32::MAX
                || !shift_fits(indices@, old(self).vertices@.len() as int)),
            r is None ==> final(self).vertices@ == old(self).vertices@ && final(self).colors@ == old(
                self,
            ).colors@ && final(self).indices@ == old(self).indices@,
            r matches Some((offset, n)) ==> {
                &&& offset == old(self).vertices@.len()
                &&& n == verts@.len()
                &&& final(self).vertices@ == old(self).vertices@ + verts@
                &&& final(self).colors@ == old(self).colors@ + colors@
                &&& final(self).indices@ == old(self).indices@ + shifted(indices@, offset)
            },
    {
        let count = self.vertices.len();
        if count > 0xffff_ffffusize || verts.len() > 0xffff_ffffusize {
            return None;
        }
        let start_index = count as u32;
        let mut i: usize = 0;
        while i < indices.len()
            invariant
                i <= indices@.len(),
                start_index == old(self).vertices@.len(),
                forall|j: int| 0 <= j < i ==> indices@[j] + start_index <= u32::MAX,
            decreases indices.len() - i,
        {
            if indices[i] > 0xffff_ffffu32 - start_index {
                assert(indices@[i as int] + start_index > u32::MAX);
                assert(!shift_fits(indices@, old(self).vertices@.len() as int));
                return None;
            }
            i = i + 1;
        }
        let ghost old_indices = self.indices@;
        let mut k: usize = 0;
        while k < indices.len()
            invariant
                k <= indices@.len(),
                start_index == old(self).vertices@.len(),
                self.vertices@ == old(self).vertices@,
                self.colors@ == old(self).colors@,
                shift_fits(indices@, start_index as int),
                self.indices@ == old_indices + shifted(indices@, start_index).take(k as int),
            decreases indices.len() - k,
        {
            self.indices.push(indices[k] + start_index);
            k = k + 1;
            assert(self.indices@ =~= old_indices + shifted(indices@, start_index).take(k as int));
        }
        assert(shifted(indices@, start_index).take(k as int) =~= shifted(indices@, start_index));
        let n = verts.len() as u32;
        let mut verts = verts;
        let mut colors = colors;
        self.vertices.append(&mut verts);
        self.colors.append(&mut colors);
        Some((start_index, n))
    }
}

} // verus!
