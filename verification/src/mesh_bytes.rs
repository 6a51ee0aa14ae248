//! Mesh data as the raw bytes that storage keeps: each vertex is three `f32`
//! and each colour four, laid out one after the other in the byte order of
//! the machine (little-endian on the targets the program runs on). Here the
//! numbers are held by their bits.

use vstd::prelude::*;

use crate::stroke::StrokeMesh;
use crate::wire::{le_u32, lemma_le_u32_roundtrip, lemma_skip_concat, lemma_skip_skip, u32_le_bytes};

verus! {

/// The vertex whose bytes start `12 * i` bytes into `b`.
pub open spec fn vertex_at(b: Seq<u8>, i: int) -> [u32; 3] {
    [le_u32(b.skip(12 * i)), le_u32(b.skip(12 * i + 4)), le_u32(b.skip(12 * i + 8))]
}

/// The colour whose bytes start `16 * i` bytes into `b`.
pub open spec fn color_at(b: Seq<u8>, i: int) -> [u32; 4] {
    [
        le_u32(b.skip(16 * i)),
        le_u32(b.skip(16 * i + 4)),
        le_u32(b.skip(16 * i + 8)),
        le_u32(b.skip(16 * i + 12)),
    ]
}

/// The vertices held by `b`: one per whole group of 12 bytes; bytes left
/// over are ignored.
pub open spec fn decode_vertices(b: Seq<u8>) -> Seq<[u32; 3]> {
    Seq::new(b.len() / 12, |i: int| vertex_at(b, i))
}

/// The colours held by `b`: one per whole group of 16 bytes; bytes left
/// over are ignored.
pub open spec fn decode_colors(b: Seq<u8>) -> Seq<[u32; 4]> {
    Seq::new(b.len() / 16, |i: int| color_at(b, i))
}

/// The bytes of one vertex.
pub open spec fn vertex_bytes(v: [u32; 3]) -> Seq<u8> {
    u32_le_bytes(v[0]) + (u32_le_bytes(v[1]) + u32_le_bytes(v[2]))
}

/// The bytes of one colour.
pub open spec fn color_bytes(c: [u32; 4]) -> Seq<u8> {
    u32_le_bytes(c[0]) + (u32_le_bytes(c[1]) + (u32_le_bytes(c[2]) + u32_le_bytes(c[3])))
}

/// The bytes of a list of vertices, one after the other.
pub open spec fn vertices_bytes(vs: Seq<[u32; 3]>) -> Seq<u8>
    decreases vs.len(),
{
    if vs.len() == 0 {
        Seq::empty()
    } else {
        vertices_bytes(vs.drop_last()) + vertex_bytes(vs.last())
    }
}

/// The bytes of a list of colours, one after the other.
pub open spec fn colors_bytes(cs: Seq<[u32; 4]>) -> Seq<u8>
    decreases cs.len(),
{
    if cs.len() == 0 {
        Seq::empty()
    } else {
        colors_bytes(cs.drop_last()) + color_bytes(cs.last())
    }
}

/// The little-endian `u32` that starts `k` bytes into `b`.
fn read_le_u32(b: &Vec<u8>, k: usize) -> (r: u32)
    requires
        k + 4 <= b@.len(),
    ensures
        r == le_u32(b@.skip(k as int)),
{
    proof {
        reveal(crate::wire::u32_from_be);
    }
    let len = b.len();
    assert(k + 4 <= len);
    ((b[k + 3] as u32) << 24u32) | ((b[k + 2] as u32) << 16u32) | ((b[k + 1] as u32) << 8u32) | (
    b[k] as u32)
}

/// Appends the little-endian bytes of `v` to `out`.
fn push_le_u32(out: &mut Vec<u8>, v: u32)
    ensures
        final(out)@ == old(out)@ + u32_le_bytes(v),
{
    out.push(v as u8);
    out.push((v >> 8u32) as u8);
    out.push((v >> 16u32) as u8);
    out.push((v >> 24u32) as u8);
    assert(out@ =~= old(out)@ + u32_le_bytes(v));
}

proof fn lemma_group_fits(i: int, n: int, len: int, size: int)
    requires
        0 <= i < n,
        n == len / size,
        size > 0,
        len >= 0,
    ensures
        size * i + size <= len,
{
    assert(size * i + size <= size * n) by (nonlinear_arith)
        requires
            0 <= i < n,
            size > 0,
    {
    }
    assert(size * (len / size) <= len) by (nonlinear_arith)
        requires
            size > 0,
            len >= 0,
    {
    }
}

/// The vertices held by `data`.
pub fn vertices_from_bytes(data: &Vec<u8>) -> (r: Vec<[u32; 3]>)
    ensures
        r@ == decode_vertices(data@),
{
    let len = data.len();
    let n = len / 12;
    let mut r: Vec<[u32; 3]> = Vec::new();
    let mut i: usize = 0;
    while i < n
        invariant
            len == data@.len(),
            n == len / 12,
            i <= n,
            r@ == decode_vertices(data@).take(i as int),
        decreases n - i,
    {
        proof {
            lemma_group_fits(i as int, n as int, len as int, 12);
        }
        assert(12 * i + 12 <= len);
        let k = 12 * i;
        let v = [read_le_u32(data, k), read_le_u32(data, k + 4), read_le_u32(data, k + 8)];
        r.push(v);
        i = i + 1;
        assert(r@ =~= decode_vertices(data@).take(i as int));
    }
    assert(decode_vertices(data@).take(n as int) =~= decode_vertices(data@));
    r
}

/// The colours held by `data`.
pub fn colors_from_bytes(data: &Vec<u8>) -> (r: Vec<[u32; 4]>)
    ensures
        r@ == decode_colors(data@),
{
    let len = data.len();
    let n = len / 16;
    let mut r: Vec<[u32; 4]> = Vec::new();
    let mut i: usize = 0;
    while i < n
        invariant
            len == data@.len(),
            n == len / 16,
            i <= n,
            r@ == decode_colors(data@).take(i as int),
        decreases n - i,
    {
        proof {
            lemma_group_fits(i as int, n as int, len as int, 16);
        }
        assert(16 * i + 16 <= len);
        let k = 16 * i;
        let c = [
            read_le_u32(data, k),
            read_le_u32(data, k + 4),
            read_le_u32(data, k + 8),
            read_le_u32(data, k + 12),
        ];
        r.push(c);
        i = i + 1;
        assert(r@ =~= decode_colors(data@).take(i as int));
    }
    assert(decode_colors(data@).take(n as int) =~= decode_colors(data@));
    r
}

/// The bytes of a list of vertices.
pub fn vertices_to_bytes(vs: &Vec<[u32; 3]>) -> (r: Vec<u8>)
    ensures
        r@ == vertices_bytes(vs@),
{
    let mut out: Vec<u8> = Vec::new();
    let mut i: usize = 0;
    while i < vs.len()
        invariant
            i <= vs@.len(),
            out@ == vertices_bytes(vs@.take(i as int)),
        decreases vs.len() - i,
    {
        let v = vs[i];
        push_le_u32(&mut out, v[0]);
        push_le_u32(&mut out, v[1]);
        push_le_u32(&mut out, v[2]);
        assert(vs@.take(i + 1).drop_last() =~= vs@.take(i as int));
        i = i + 1;
        assert(out@ =~= vertices_bytes(vs@.take(i as int)));
    }
    assert(vs@.take(i as int) =~= vs@);
    out
}

/// The bytes of a list of colours.
pub fn colors_to_bytes(cs: &Vec<[u32; 4]>) -> (r: Vec<u8>)
    ensures
        r@ == colors_bytes(cs@),
{
    let mut out: Vec<u8> = Vec::new();
    let mut i: usize = 0;
    while i < cs.len()
        invariant
            i <= cs@.len(),
            out@ == colors_bytes(cs@.take(i as int)),
        decreases cs.len() - i,
    {
        let c = cs[i];
        push_le_u32(&mut out, c[0]);
        push_le_u32(&mut out, c[1]);
        push_le_u32(&mut out, c[2]);
        push_le_u32(&mut out, c[3]);
        assert(cs@.take(i + 1).drop_last() =~= cs@.take(i as int));
        i = i + 1;
        assert(out@ =~= colors_bytes(cs@.take(i as int)));
    }
    assert(cs@.take(i as int) =~= cs@);
    out
}

impl StrokeMesh<[u32; 3], [u32; 4]> {
    /// A mesh from the bytes of its vertices and colours, and its indices.
    pub fn from_bytes(vertex_data: Vec<u8>, index_data: Vec<u32>, color_data: Vec<u8>) -> (m: Self)
        ensures
            m.vertices@ == decode_vertices(vertex_data@),
            m.indices@ == index_data@,
            m.colors@ == decode_colors(color_data@),
    {
        let vertices = vertices_from_bytes(&vertex_data);
        let colors = colors_from_bytes(&color_data);
        StrokeMesh { vertices, indices: index_data, colors }
    }

    /// The bytes of this mesh's vertices.
    pub fn write_vertex_data(&self) -> (r: Vec<u8>)
        ensures
            r@ == vertices_bytes(self.vertices@),
    {
        vertices_to_bytes(&self.vertices)
    }

    /// The bytes of this mesh's colours.
    pub fn write_color_data(&self) -> (r: Vec<u8>)
        ensures
            r@ == colors_bytes(self.colors@),
    {
        colors_to_bytes(&self.colors)
    }
}

proof fn lemma_vertex_front(v: [u32; 3], tail: Seq<u8>)
    ensures
        vertex_bytes(v).len() == 12,
        vertex_at(vertex_bytes(v) + tail, 0) == v,
{
    let b = vertex_bytes(v) + tail;
    let r2 = u32_le_bytes(v[2]) + tail;
    let r1 = u32_le_bytes(v[1]) + r2;
    assert(b =~= u32_le_bytes(v[0]) + r1);
    lemma_le_u32_roundtrip(v[0], r1);
    lemma_le_u32_roundtrip(v[1], r2);
    lemma_le_u32_roundtrip(v[2], tail);
    lemma_skip_skip(b, 4, 4);
    assert(b.skip(0) == b);
    assert(vertex_at(b, 0) =~= v);
}

proof fn lemma_color_front(c: [u32; 4], tail: Seq<u8>)
    ensures
        color_bytes(c).len() == 16,
        color_at(color_bytes(c) + tail, 0) == c,
{
    let b = color_bytes(c) + tail;
    let r3 = u32_le_bytes(c[3]) + tail;
    let r2 = u32_le_bytes(c[2]) + r3;
    let r1 = u32_le_bytes(c[1]) + r2;
    assert(b =~= u32_le_bytes(c[0]) + r1);
    lemma_le_u32_roundtrip(c[0], r1);
    lemma_le_u32_roundtrip(c[1], r2);
    lemma_le_u32_roundtrip(c[2], r3);
    lemma_le_u32_roundtrip(c[3], tail);
    lemma_skip_skip(b, 4, 4);
    lemma_skip_skip(b, 8, 4);
    assert(b.skip(0) == b);
    assert(color_at(b, 0) =~= c);
}

proof fn lemma_vertices_bytes(vs: Seq<[u32; 3]>, tail: Seq<u8>)
    ensures
        vertices_bytes(vs).len() == 12 * vs.len(),
        forall|i: int| 0 <= i < vs.len() ==> #[trigger] vertex_at(vertices_bytes(vs) + tail, i) == vs[i],
    decreases vs.len(),
{
    if vs.len() > 0 {
        let init = vs.drop_last();
        let v = vs.last();
        let tail2 = vertex_bytes(v) + tail;
        lemma_vertices_bytes(init, tail2);
        lemma_vertex_front(v, tail);
        let b = vertices_bytes(vs) + tail;
        assert(b =~= vertices_bytes(init) + tail2);
        assert forall|i: int| 0 <= i < vs.len() implies #[trigger] vertex_at(b, i) == vs[i] by {
            if i < vs.len() - 1 {
                assert(init[i] == vs[i]);
            } else {
                let k = 12 * i;
                lemma_skip_concat(vertices_bytes(init), tail2, k);
                lemma_skip_skip(b, k, 4);
                lemma_skip_skip(b, k, 8);
                assert(tail2.skip(0) == tail2);
                assert(vertex_at(b, i) == vertex_at(tail2, 0));
            }
        }
    }
}

proof fn lemma_colors_bytes(cs: Seq<[u32; 4]>, tail: Seq<u8>)
    ensures
        colors_bytes(cs).len() == 16 * cs.len(),
        forall|i: int| 0 <= i < cs.len() ==> #[trigger] color_at(colors_bytes(cs) + tail, i) == cs[i],
    decreases cs.len(),
{
    if cs.len() > 0 {
        let init = cs.drop_last();
        let c = cs.last();
        let tail2 = color_bytes(c) + tail;
        lemma_colors_bytes(init, tail2);
        lemma_color_front(c, tail);
        let b = colors_bytes(cs) + tail;
        assert(b =~= colors_bytes(init) + tail2);
        assert forall|i: int| 0 <= i < cs.len() implies #[trigger] color_at(b, i) == cs[i] by {
            if i < cs.len() - 1 {
                assert(init[i] == cs[i]);
            } else {
                let k = 16 * i;
                lemma_skip_concat(colors_bytes(init), tail2, k);
                lemma_skip_skip(b, k, 4);
                lemma_skip_skip(b, k, 8);
                lemma_skip_skip(b, k, 12);
                assert(tail2.skip(0) == tail2);
                assert(color_at(b, i) == color_at(tail2, 0));
            }
        }
    }
}

/// Reading back the bytes that a mesh's vertices and colours are written as
/// gives the same vertices and colours.
pub proof fn law_mesh_bytes_roundtrip(vs: Seq<[u32; 3]>, cs: Seq<[u32; 4]>)
    ensures
        decode_vertices(vertices_bytes(vs)) == vs,
        decode_colors(colors_bytes(cs)) == cs,
{
    lemma_vertices_bytes(vs, Seq::empty());
    lemma_colors_bytes(cs, Seq::empty());
    let vb = vertices_bytes(vs);
    let cb = colors_bytes(cs);
    assert(vb + Seq::<u8>::empty() =~= vb);
    assert(cb + Seq::<u8>::empty() =~= cb);
    assert((12 * vs.len()) / 12 == vs.len()) by (nonlinear_arith);
    assert((16 * cs.len()) / 16 == cs.len()) by (nonlinear_arith);
    assert(decode_vertices(vb) =~= vs);
    assert(decode_colors(cb) =~= cs);
}

} // verus!
