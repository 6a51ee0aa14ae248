//! One chunk of the canvas: when to ask storage for its strokes, and how
//! stroke meshes that arrive from storage are merged into its mesh.

use vstd::prelude::*;

use crate::chunks::ids_view;
use crate::stroke::StrokeMesh;

verus! {

/// A chunk of the canvas at a position (left open: it holds floating-point
/// numbers), and whether its strokes were asked for and have arrived.
pub struct Chunk<P> {
    pub position: P,
    pub has_requested_db_chunks: bool,
    pub finished_loading: bool,
    pub chunk_id: String,
}

/// Whether `p` is the place of the first occurrence of `id` in `ids`.
pub open spec fn is_first_occurrence(ids: Seq<Seq<char>>, id: Seq<char>, p: int) -> bool {
    &&& 0 <= p < ids.len()
    &&& ids[p] == id
    &&& forall|k: int| 0 <= k < p ==> ids[k] != id
}

/// The place of the first occurrence of `id` in `list`, if any.
pub fn first_position(list: &Vec<String>, id: &String) -> (r: Option<usize>)
    ensures
        r matches Some(p) ==> is_first_occurrence(ids_view(list@), id@, p as int),
        r is None ==> forall|k: int| 0 <= k < list@.len() ==> ids_view(list@)[k] != id@,
{
    let ghost ids = ids_view(list@);
    let mut i: usize = 0;
    while i < list.len()
        invariant
            i <= list@.len(),
            ids == ids_view(list@),
            forall|k: int| 0 <= k < i ==> ids[k] != id@,
        decreases list.len() - i,
    {
        if list[i] == *id {
            assert(ids[i as int] == id@);
            return Some(i);
        }
        i = i + 1;
    }
    None
}

impl<P> Chunk<P> {
    /// A chunk that has asked for nothing yet.
    pub fn new(chunk_id: String, position: P) -> (c: Chunk<P>)
        ensures
            c.chunk_id == chunk_id,
            c.position == position,
            !c.has_requested_db_chunks,
            !c.finished_loading,
    {
        Chunk { position, has_requested_db_chunks: false, finished_loading: false, chunk_id }
    }

    /// Decides whether this chunk must ask storage for its strokes: when it
    /// never did, or when its name is in the list of chunks to reload. The
    /// first occurrence of its name is then taken off that list, and the
    /// chunk counts as having asked.
    pub fn take_load_request(&mut self, reload_list: &mut Vec<String>) -> (r: bool)
        ensures
            r == (!old(self).has_requested_db_chunks || ids_view(old(reload_list)@).contains(
                old(self).chunk_id@,
            )),
            final(self).chunk_id == old(self).chunk_id,
            final(self).position == old(self).position,
            final(self).finished_loading == old(self).finished_loading,
            final(self).has_requested_db_chunks == (old(self).has_requested_db_chunks || r),
            !ids_view(old(reload_list)@).contains(old(self).chunk_id@) ==> final(reload_list)@ == old(
                reload_list,
            )@,
            ids_view(old(reload_list)@).contains(old(self).chunk_id@) ==> exists|p: int|
                is_first_occurrence(ids_view(old(reload_list)@), old(self).chunk_id@, p)
                    && final(reload_list)@ == old(reload_list)@.remove(p),
    {
        let ghost ids = ids_view(reload_list@);
        let found = first_position(reload_list, &self.chunk_id);
        match found {
            Some(p) => {
                assert(ids[p as int] == self.chunk_id@);
                assert(is_first_occurrence(ids, self.chunk_id@, p as int));
                reload_list.remove(p);
                self.has_requested_db_chunks = true;
                true
            },
            None => {
                assert(!ids.contains(self.chunk_id@)) by {
                    if ids.contains(self.chunk_id@) {
                        let j = choose|j: int| 0 <= j < ids.len() && ids[j] == self.chunk_id@;
                        assert(ids[j] != self.chunk_id@);
                    }
                }
                if !self.has_requested_db_chunks {
                    self.has_requested_db_chunks = true;
                    true
                } else {
                    false
                }
            },
        }
    }
}

/// How a stroke mesh that arrives from storage is merged into a chunk's mesh.
#[derive(Clone, Copy, Debug, PartialEq, Eq, Structural)]
pub enum AppendAction {
    /// The chunk's mesh is a placeholder: the stroke's mesh takes its place.
    Replace,
    /// The stroke's mesh goes at the end.
    Append,
    /// The stroke was placed for a different vertex count: the chunk is to
    /// be dropped and loaded again.
    Respawn,
}

/// Merges a stroke mesh that storage placed at `vertex_offset` into a chunk's
/// mesh. A chunk mesh of one vertex is a placeholder, replaced by a stroke
/// placed at 0; a stroke placed right at the end is appended as it is
/// (storage has already shifted its indices); any other placement leaves the
/// mesh alone and asks for a reload. Without a placement (when the
/// placeholder case does not apply) nothing happens and nothing is given:
/// the drawing program gives up there.
pub fn merge_stroke_mesh<V, C>(
    mesh: &mut StrokeMesh<V, C>,
    incoming: StrokeMesh<V, C>,
    vertex_offset: Option<u32>,
) -> (r: Option<AppendAction>)
    ensures
        ({
            let n = old(mesh).vertices@.len();
            if n == 1 && vertex_offset == Some(0u32) {
                &&& r == Some(AppendAction::Replace)
                &&& final(mesh).vertices@ == incoming.vertices@
                &&& final(mesh).indices@ == incoming.indices@
                &&& final(mesh).colors@ == incoming.colors@
            } else if vertex_offset is None {
                &&& r is None
                &&& final(mesh).vertices@ == old(mesh).vertices@
                &&& final(mesh).indices@ == old(mesh).indices@
                &&& final(mesh).colors@ == old(mesh).colors@
            } else if n == vertex_offset.unwrap() {
                &&& r == Some(AppendAction::Append)
                &&& final(mesh).vertices@ == old(mesh).vertices@ + incoming.vertices@
                &&& final(mesh).indices@ == old(mesh).indices@ + incoming.indices@
                &&& final(mesh).colors@ == old(mesh).colors@ + incoming.colors@
            } else {
                &&& r == Some(AppendAction::Respawn)
                &&& final(mesh).vertices@ == old(mesh).vertices@
                &&& final(mesh).indices@ == old(mesh).indices@
                &&& final(mesh).colors@ == old(mesh).colors@
            }
        }),
{
    let mut incoming = incoming;
    if mesh.vertices.len() == 1 && vertex_offset == Some(0u32) {
        mesh.vertices = incoming.vertices;
        mesh.indices = incoming.indices;
        mesh.colors = incoming.colors;
        return Some(AppendAction::Replace);
    }
    let offset = match vertex_offset {
        Some(o) => o,
        None => return None,
    };
    if mesh.vertices.len() == offset as usize {
        mesh.vertices.append(&mut incoming.vertices);
        mesh.colors.append(&mut incoming.colors);
        mesh.indices.append(&mut incoming.indices);
        Some(AppendAction::Append)
    } else {
        Some(AppendAction::Respawn)
    }
}

/// Blanks out `num_verts` vertices from `offset` on by setting them to
/// `zero`. Gives `Some(false)` and changes nothing when there are too few
/// vertices; gives nothing and changes nothing when `offset + num_verts`
/// does not fit in a `u32` (the drawing program gives up there).
pub fn remove_verts<V: Copy>(verts: &mut Vec<V>, offset: u32, num_verts: u32, zero: V) -> (r: Option<
    bool,
>)
    ensures
        offset + num_verts > u32::MAX ==> r is None && final(verts)@ == old(verts)@,
        offset + num_verts <= u32::MAX && old(verts)@.len() < offset + num_verts ==> r == Some(false)
            && final(verts)@ == old(verts)@,
        offset + num_verts <= u32::MAX && old(verts)@.len() >= offset + num_verts ==> {
            &&& r == Some(true)
            &&& final(verts)@.len() == old(verts)@.len()
            &&& forall|i: int|
                0 <= i < old(verts)@.len() ==> #[trigger] final(verts)@[i] == if offset <= i < offset
                    + num_verts {
                    zero
                } else {
                    old(verts)@[i]
                }
        },
{
    if num_verts > 0xffff_ffffu32 - offset {
        return None;
    }
    let end = offset + num_verts;
    if verts.len() < end as usize {
        return Some(false);
    }
    let mut i: u32 = 0;
    while i < num_verts
        invariant
            i <= num_verts,
            end == offset + num_verts,
            verts@.len() == old(verts)@.len(),
            old(verts)@.len() >= end,
            forall|j: int|
                0 <= j < old(verts)@.len() ==> #[trigger] verts@[j] == if offset <= j < offset + i {
                    zero
                } else {
                    old(verts)@[j]
                },
        decreases num_verts - i,
    {
        let index = offset + i;
        verts.set(index as usize, zero);
        i = i + 1;
    }
    Some(true)
}

} // verus!
