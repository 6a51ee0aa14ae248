//! The triangle topology of a stroke outline. A stroke is drawn as a strip:
//! each step adds vertices at the end and joins them, by triangles, to the
//! two vertices that last bounded the strip on its upper and lower side.
//! Where the vertices go (floating-point geometry) is decided elsewhere;
//! this keeps the vertex count, the two strip ends and the indices.

use vstd::prelude::*;

verus! {

/// How the ends of a stroke are drawn.
#[derive(Clone, Copy, Debug, PartialEq, Eq, Structural)]
pub enum LineCapMode {
    /// No cap: the stroke ends flat at its last point.
    NoCap,
    Box,
    Round,
}

/// How the corners of a stroke are drawn.
#[derive(Clone, Copy, Debug, PartialEq, Eq, Structural)]
pub enum LineJointMode {
    Sharp,
    Bevel,
    Round,
}

/// The corner drawn at a joint: a sharp corner becomes a bevel where the
/// inner edges do not meet, or where the outer point would reach too far.
pub open spec fn joint_at(mode: LineJointMode, is_intersecting: bool, beyond_sharp_limit: bool) -> LineJointMode {
    if mode == LineJointMode::Sharp && (!is_intersecting || beyond_sharp_limit) {
        LineJointMode::Bevel
    } else {
        mode
    }
}

/// The corner drawn at a joint.
pub fn joint_mode_at(mode: LineJointMode, is_intersecting: bool, beyond_sharp_limit: bool) -> (r: LineJointMode)
    ensures
        r == joint_at(mode, is_intersecting, beyond_sharp_limit),
{
    let mut current = mode;
    if is_intersecting {
        if current == LineJointMode::Sharp && beyond_sharp_limit {
            current = LineJointMode::Bevel;
        }
    } else {
        if current == LineJointMode::Sharp {
            current = LineJointMode::Bevel;
        }
    }
    current
}

/// A side of the strip.
#[derive(Clone, Copy, Debug, PartialEq, Eq, Structural)]
pub enum Orientation {
    Up,
    Down,
}

/// The other side.
pub open spec fn opposite(o: Orientation) -> Orientation {
    match o {
        Orientation::Up => Orientation::Down,
        Orientation::Down => Orientation::Up,
    }
}

/// The mathematical value of a [`StripIndexer`].
#[verifier::ext_equal]
pub struct StripModel {
    pub vertex_count: nat,
    pub last_up: nat,
    pub last_down: nat,
    pub indices: Seq<u32>,
}

/// The strip end on one side.
pub open spec fn last_on(m: StripModel, o: Orientation) -> nat {
    match o {
        Orientation::Up => m.last_up,
        Orientation::Down => m.last_down,
    }
}

/// Whether every index names a vertex and they come three by three.
pub open spec fn well_formed(m: StripModel) -> bool {
    &&& forall|i: int| 0 <= i < m.indices.len() ==> m.indices[i] < m.vertex_count
    &&& m.indices.len() % 3 == 0
}

/// The vertex count, strip ends and indices of a stroke outline.
pub struct StripIndexer {
    vertex_count: u64,
    last_up: u64,
    last_down: u64,
    indices: Vec<u32>,
}

impl View for StripIndexer {
    type V = StripModel;

    closed spec fn view(&self) -> StripModel {
        StripModel {
            vertex_count: self.vertex_count as nat,
            last_up: self.last_up as nat,
            last_down: self.last_down as nat,
            indices: self.indices@,
        }
    }
}

/// The indices of a fan of `steps` triangles around vertex `center`, the
/// `k`-th joining `center + k + 1` and `center + k + 2`.
pub open spec fn fan_indices(center: nat, steps: nat) -> Seq<u32> {
    Seq::new(3 * steps, |i: int| if i % 3 == 0 {
        center as u32
    } else {
        (center + i / 3 + i % 3) as u32
    })
}

impl StripIndexer {
    #[verifier::type_invariant]
    spec fn inv(self) -> bool {
        &&& self.vertex_count <= 0x1_0000_0000
        &&& (self.vertex_count == 0 && self.last_up == 0 && self.last_down == 0) || (self.last_up
            < self.vertex_count && self.last_down < self.vertex_count)
        &&& forall|i: int| 0 <= i < self.indices@.len() ==> self.indices@[i] < self.vertex_count
        &&& self.indices@.len() % 3 == 0
    }

    /// No vertices, no indices, both ends at 0.
    pub fn new() -> (s: StripIndexer)
        ensures
            s@ == (StripModel { vertex_count: 0, last_up: 0, last_down: 0, indices: Seq::empty() }),
    {
        let s = StripIndexer { vertex_count: 0, last_up: 0, last_down: 0, indices: Vec::new() };
        assert(s@ =~= (StripModel { vertex_count: 0, last_up: 0, last_down: 0, indices: Seq::empty() }));
        s
    }

    /// How many vertices there are.
    pub fn vertex_count(&self) -> (n: u64)
        ensures
            n == self@.vertex_count,
    {
        self.vertex_count
    }

    /// The vertex at the end of the strip on one side.
    pub fn last_index(&self, side: Orientation) -> (i: u64)
        ensures
            i == last_on(self@, side),
    {
        match side {
            Orientation::Up => self.last_up,
            Orientation::Down => self.last_down,
        }
    }

    /// The indices so far.
    pub fn indices(&self) -> (v: &Vec<u32>)
        ensures
            v@ == self@.indices,
    {
        &self.indices
    }

    /// Hands over the indices.
    pub fn into_indices(self) -> (v: Vec<u32>)
        ensures
            v@ == self@.indices,
    {
        self.indices
    }

    /// Starts a new strip with an upper and a lower vertex, which become the
    /// strip's ends.
    pub fn strip_begin(&mut self)
        requires
            old(self)@.vertex_count + 2 <= 0x1_0000_0000,
        ensures
            final(self)@ == (StripModel {
                vertex_count: old(self)@.vertex_count + 2,
                last_up: old(self)@.vertex_count,
                last_down: old(self)@.vertex_count + 1,
                indices: old(self)@.indices,
            }),
            well_formed(final(self)@),
    {
        proof {
            use_type_invariant(&*self);
        }
        let vi = self.vertex_count;
        self.vertex_count = vi + 2;
        self.last_up = vi;
        self.last_down = vi + 1;
    }

    /// Extends the strip by an upper and a lower vertex and the two
    /// triangles that join them to the strip's ends; they become the ends.
    pub fn strip_add_quad(&mut self)
        requires
            old(self)@.vertex_count + 2 <= 0x1_0000_0000,
        ensures
            final(self)@ == (StripModel {
                vertex_count: old(self)@.vertex_count + 2,
                last_up: old(self)@.vertex_count,
                last_down: old(self)@.vertex_count + 1,
                indices: old(self)@.indices + seq![
                    old(self)@.last_up as u32,
                    (old(self)@.vertex_count + 1) as u32,
                    old(self)@.last_down as u32,
                    old(self)@.last_up as u32,
                    old(self)@.vertex_count as u32,
                    (old(self)@.vertex_count + 1) as u32,
                ],
            }),
            well_formed(final(self)@),
    {
        proof {
            use_type_invariant(&*self);
        }
        let vi = self.vertex_count;
        let up = self.last_up as u32;
        let down = self.last_down as u32;
        let a = vi as u32;
        let b = (vi + 1) as u32;
        let mut indices = Vec::new();
        std::mem::swap(&mut indices, &mut self.indices);
        let ghost before = indices@;
        indices.push(up);
        indices.push(b);
        indices.push(down);
        indices.push(up);
        indices.push(a);
        indices.push(b);
        assert(indices@ =~= before + seq![up, b, down, up, a, b]);
        *self = StripIndexer { vertex_count: vi + 2, last_up: vi, last_down: vi + 1, indices };
    }

    /// Adds one vertex on the side opposite to `orientation` and the
    /// triangle that joins it to both ends; it becomes the end on that side.
    pub fn strip_add_tri(&mut self, orientation: Orientation)
        requires
            old(self)@.vertex_count + 1 <= 0x1_0000_0000,
        ensures
            final(self)@.vertex_count == old(self)@.vertex_count + 1,
            final(self)@.indices == old(self)@.indices + seq![
                last_on(old(self)@, opposite(orientation)) as u32,
                old(self)@.vertex_count as u32,
                last_on(old(self)@, orientation) as u32,
            ],
            last_on(final(self)@, opposite(orientation)) == old(self)@.vertex_count,
            last_on(final(self)@, orientation) == last_on(old(self)@, orientation),
            well_formed(final(self)@),
    {
        proof {
            use_type_invariant(&*self);
        }
        let vi = self.vertex_count;
        let (opp, same) = match orientation {
            Orientation::Up => (self.last_down, self.last_up),
            Orientation::Down => (self.last_up, self.last_down),
        };
        let mut indices = Vec::new();
        std::mem::swap(&mut indices, &mut self.indices);
        let ghost before = indices@;
        indices.push(opp as u32);
        indices.push(vi as u32);
        indices.push(same as u32);
        assert(indices@ =~= before + seq![opp as u32, vi as u32, same as u32]);
        let (up, down) = match orientation {
            Orientation::Up => (self.last_up, vi),
            Orientation::Down => (vi, self.last_down),
        };
        *self = StripIndexer { vertex_count: vi + 1, last_up: up, last_down: down, indices };
    }

    /// Adds a fan for a round cap: a centre vertex, then `steps + 1` rim
    /// vertices, joined by `steps` triangles around the centre. The strip
    /// ends stay as they were.
    pub fn new_arc(&mut self, steps: u32)
        requires
            old(self)@.vertex_count + steps + 2 <= 0x1_0000_0000,
        ensures
            final(self)@ == (StripModel {
                vertex_count: old(self)@.vertex_count + steps as nat + 2,
                indices: old(self)@.indices + fan_indices(old(self)@.vertex_count, steps as nat),
                ..old(self)@
            }),
            well_formed(final(self)@),
    {
        proof {
            use_type_invariant(&*self);
        }
        let vi0 = self.vertex_count;
        let mut indices = Vec::new();
        std::mem::swap(&mut indices, &mut self.indices);
        let ghost before = indices@;
        let mut k: u32 = 0;
        while k < steps
            invariant
                k <= steps,
                vi0 + steps + 2 <= 0x1_0000_0000,
                indices@ == before + fan_indices(vi0 as nat, k as nat),
            decreases steps - k,
        {
            let ghost prev = indices@;
            indices.push(vi0 as u32);
            indices.push((vi0 + k as u64 + 1) as u32);
            indices.push((vi0 + k as u64 + 2) as u32);
            k = k + 1;
            assert(indices@ =~= before + fan_indices(vi0 as nat, k as nat)) by {
                assert forall|i: int| 0 <= i < 3 * k implies #[trigger] fan_indices(vi0 as nat, k as nat)[i]
                    == if i < 3 * (k - 1) {
                    fan_indices(vi0 as nat, (k - 1) as nat)[i]
                } else if i == 3 * (k - 1) {
                    vi0 as u32
                } else if i == 3 * (k - 1) + 1 {
                    (vi0 + k) as u32
                } else {
                    (vi0 + k + 1) as u32
                } by {}
            }
        }
        let last_up = self.last_up;
        let last_down = self.last_down;
        *self = StripIndexer { vertex_count: vi0 + steps as u64 + 2, last_up, last_down, indices };
    }
}

} // verus!
