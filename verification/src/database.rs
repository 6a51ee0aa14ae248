//! What goes to and comes from the browser's stroke storage: queues of
//! strokes per chunk, batches to store, and removals of vertices.

use vstd::prelude::*;

use crate::chunks::chunk::first_position;
use crate::chunks::{ids_view, lemma_ids_push};

verus! {

/// A request from storage to blank out `num_verts` vertices of a chunk's
/// mesh from `offset` on.
pub struct RemoveVertsData {
    pub chunk_key: String,
    pub offset: u32,
    pub num_verts: u32,
}

/// The mesh of a chunk as storage sends it: the bytes of the vertices and
/// of the colours, and the indices.
pub struct JsMeshData {
    pub chunk_key: String,
    pub vertex_data: Vec<u8>,
    pub index_data: Vec<u32>,
    pub color_data: Vec<u8>,
}

impl JsMeshData {
    /// A chunk mesh from its parts.
    pub fn new(chunk_key: String, vertex_data: Vec<u8>, index_data: Vec<u32>, color_data: Vec<u8>) -> (m: JsMeshData)
        ensures
            m.chunk_key == chunk_key,
            m.vertex_data@ == vertex_data@,
            m.index_data@ == index_data@,
            m.color_data@ == color_data@,
    {
        JsMeshData { chunk_key, vertex_data, index_data, color_data }
    }

    /// Whether the mesh is used: none of its three parts is empty.
    pub fn has_mesh(&self) -> (r: bool)
        ensures
            r == (self.vertex_data@.len() > 0 && self.index_data@.len() > 0
                && self.color_data@.len() > 0),
    {
        !(self.vertex_data.len() == 0 || self.index_data.len() == 0 || self.color_data.len() == 0)
    }
}

/// Items queued per chunk: for each chunk name (none twice), its items in
/// the order they came.
pub struct ChunkQueues<T> {
    keys: Vec<String>,
    queues: Vec<Vec<T>>,
}

/// The mathematical value of a [`ChunkQueues`]: the queued items of each
/// chunk name.
pub open spec fn queue_of<T>(keys: Seq<Seq<char>>, queues: Seq<Seq<T>>, key: Seq<char>) -> Seq<T> {
    if exists|i: int| 0 <= i < keys.len() && keys[i] == key {
        queues[choose|i: int| 0 <= i < keys.len() && keys[i] == key]
    } else {
        Seq::empty()
    }
}

impl<T> ChunkQueues<T> {
    #[verifier::type_invariant]
    spec fn inv(self) -> bool {
        &&& self.keys@.len() == self.queues@.len()
        &&& forall|i: int, j: int|
            0 <= i < j < self.keys@.len() ==> self.keys@[i]@ != self.keys@[j]@
    }

    /// The items queued for the chunk named `key`, oldest first.
    pub closed spec fn items(self, key: Seq<char>) -> Seq<T> {
        queue_of(
            ids_view(self.keys@),
            self.queues@.map_values(|q: Vec<T>| q@),
            key,
        )
    }

    /// Nothing queued.
    pub fn new() -> (q: ChunkQueues<T>)
        ensures
            forall|k: Seq<char>| q.items(k) == Seq::<T>::empty(),
    {
        ChunkQueues { keys: Vec::new(), queues: Vec::new() }
    }

    fn position(&self, key: &String) -> (r: Option<usize>)
        ensures
            r matches Some(i) ==> i < self.keys@.len() && self.keys@[i as int]@ == key@,
            r is None ==> forall|i: int| 0 <= i < self.keys@.len() ==> self.keys@[i]@ != key@,
    {
        let mut i: usize = 0;
        while i < self.keys.len()
            invariant
                i <= self.keys@.len(),
                forall|k: int| 0 <= k < i ==> self.keys@[k]@ != key@,
            decreases self.keys.len() - i,
        {
            if self.keys[i] == *key {
                return Some(i);
            }
            i = i + 1;
        }
        None
    }

    /// Queues an item for the chunk named `key`, after those already there.
    pub fn push(&mut self, key: &String, item: T)
        ensures
            final(self).items(key@) == old(self).items(key@).push(item),
            forall|k: Seq<char>| k != key@ ==> final(self).items(k) == old(self).items(k),
    {
        proof {
            use_type_invariant(&*self);
        }
        let ghost old_keys = ids_view(self.keys@);
        let ghost old_queues = self.queues@.map_values(|q: Vec<T>| q@);
        match self.position(key) {
            Some(i) => {
                let mut this = ChunkQueues { keys: Vec::new(), queues: Vec::new() };
                std::mem::swap(&mut this, self);
                proof {
                    use_type_invariant(&this);
                }
                let ChunkQueues { mut keys, mut queues } = this;
                let ghost before = queues@;
                let mut q = queues.remove(i);
                assert(q@ == before[i as int]@);
                q.push(item);
                let ghost pushed = q@;
                queues.insert(i, q);
                assert(queues@ =~= before.update(i as int, queues@[i as int]));
                *self = ChunkQueues { keys, queues };
                proof {
                    let new_queues = self.queues@.map_values(|q: Vec<T>| q@);
                    assert(ids_view(self.keys@) == old_keys);
                    assert(new_queues[i as int] == old_queues[i as int].push(item));
                    assert forall|j: int| 0 <= j < new_queues.len() && j != i implies new_queues[j]
                        == old_queues[j] by {
                        assert(self.queues@[j] == before[j]);
                    }
                    assert forall|k: Seq<char>| true implies #[trigger] queue_of(old_keys, new_queues, k)
                        == if k == key@ {
                        queue_of(old_keys, old_queues, k).push(item)
                    } else {
                        queue_of(old_keys, old_queues, k)
                    } by {
                        assert(old_keys[i as int] == key@);
                        if exists|j: int| 0 <= j < old_keys.len() && old_keys[j] == k {
                            let j = choose|j: int| 0 <= j < old_keys.len() && old_keys[j] == k;
                            assert(old_keys[j] == self.keys@[j]@);
                            if k == key@ {
                                assert(self.keys@[i as int]@ == key@);
                                assert(j == i);
                                assert(queue_of(old_keys, new_queues, k) == new_queues[i as int]);
                                assert(queue_of(old_keys, old_queues, k) == old_queues[i as int]);
                            } else {
                                assert(j != i);
                                assert(queue_of(old_keys, new_queues, k) == new_queues[j]);
                                assert(queue_of(old_keys, old_queues, k) == old_queues[j]);
                            }
                        }
                    }
                }
            },
            None => {
                let mut this = ChunkQueues { keys: Vec::new(), queues: Vec::new() };
                std::mem::swap(&mut this, self);
                proof {
                    use_type_invariant(&this);
                }
                let ChunkQueues { mut keys, mut queues } = this;
                let n = keys.len();
                keys.push(key.clone());
                let mut q = Vec::new();
                q.push(item);
                queues.push(q);
                *self = ChunkQueues { keys, queues };
                proof {
                    let new_keys = ids_view(self.keys@);
                    let new_queues = self.queues@.map_values(|q: Vec<T>| q@);
                    assert forall|k: Seq<char>| true implies #[trigger] queue_of(new_keys, new_queues, k)
                        == if k == key@ {
                        queue_of(old_keys, old_queues, k).push(item)
                    } else {
                        queue_of(old_keys, old_queues, k)
                    } by {
                        if k == key@ {
                            assert(new_keys[n as int] == key@);
                            assert(!(exists|j: int| 0 <= j < old_keys.len() && old_keys[j] == k)) by {
                                if exists|j: int| 0 <= j < old_keys.len() && old_keys[j] == k {
                                    let j = choose|j: int| 0 <= j < old_keys.len() && old_keys[j] == k;
                                    assert(old_keys[j] == self.keys@[j]@);
                                }
                            }
                            assert(Seq::<T>::empty().push(item) =~= seq![item]);
                        } else {
                            if exists|j: int| 0 <= j < new_keys.len() && new_keys[j] == k {
                                let j = choose|j: int| 0 <= j < new_keys.len() && new_keys[j] == k;
                                assert(j < n);
                                assert(old_keys[j] == new_keys[j]);
                            }
                            if exists|j: int| 0 <= j < old_keys.len() && old_keys[j] == k {
                                let j = choose|j: int| 0 <= j < old_keys.len() && old_keys[j] == k;
                                assert(old_keys[j] == new_keys[j]);
                            }
                        }
                    }
                }
            },
        }
    }

    /// Forgets everything queued.
    pub fn clear(&mut self)
        ensures
            forall|k: Seq<char>| final(self).items(k) == Seq::<T>::empty(),
    {
        *self = ChunkQueues { keys: Vec::new(), queues: Vec::new() };
    }

    /// Hands over the items queued for the chunk named `key`, oldest first,
    /// and forgets them.
    pub fn take(&mut self, key: &String) -> (r: Vec<T>)
        ensures
            r@ == old(self).items(key@),
            final(self).items(key@) == Seq::<T>::empty(),
            forall|k: Seq<char>| k != key@ ==> final(self).items(k) == old(self).items(k),
    {
        proof {
            use_type_invariant(&*self);
        }
        let ghost old_keys = ids_view(self.keys@);
        let ghost old_queues = self.queues@.map_values(|q: Vec<T>| q@);
        match self.position(key) {
            Some(i) => {
                let mut this = ChunkQueues { keys: Vec::new(), queues: Vec::new() };
                std::mem::swap(&mut this, self);
                proof {
                    use_type_invariant(&this);
                }
                let ChunkQueues { mut keys, mut queues } = this;
                let q = queues.remove(i);
                queues.insert(i, Vec::new());
                *self = ChunkQueues { keys, queues };
                proof {
                    let new_queues = self.queues@.map_values(|q: Vec<T>| q@);
                    assert(ids_view(self.keys@) == old_keys);
                    assert(q@ == queue_of(old_keys, old_queues, key@)) by {
                        assert(old_keys[i as int] == key@);
                        let j = choose|j: int| 0 <= j < old_keys.len() && old_keys[j] == key@;
                        assert(old_keys[j] == self.keys@[j]@);
                        assert(j == i);
                    }
                    assert forall|k: Seq<char>| true implies #[trigger] queue_of(old_keys, new_queues, k)
                        == if k == key@ {
                        Seq::<T>::empty()
                    } else {
                        queue_of(old_keys, old_queues, k)
                    } by {
                        if exists|j: int| 0 <= j < old_keys.len() && old_keys[j] == k {
                            let j = choose|j: int| 0 <= j < old_keys.len() && old_keys[j] == k;
                            assert(old_keys[j] == self.keys@[j]@);
                            if k == key@ {
                                assert(self.keys@[i as int]@ == key@);
                                assert(j == i);
                            } else {
                                assert(j != i);
                            }
                        }
                    }
                }
                q
            },
            None => {
                proof {
                    assert(!(exists|j: int| 0 <= j < old_keys.len() && old_keys[j] == key@)) by {
                        if exists|j: int| 0 <= j < old_keys.len() && old_keys[j] == key@ {
                            let j = choose|j: int| 0 <= j < old_keys.len() && old_keys[j] == key@;
                            assert(old_keys[j] == self.keys@[j]@);
                        }
                    }
                }
                Vec::new()
            },
        }
    }
}

/// The latest value kept for each chunk name: a newer value for a chunk
/// replaces the one kept, and taking a chunk's value forgets it.
pub struct LatestByChunk<T> {
    keys: Vec<String>,
    slots: Vec<Option<T>>,
}

/// The value kept for `key`, given the names seen and their slots.
pub open spec fn slot_of<T>(keys: Seq<Seq<char>>, slots: Seq<Option<T>>, key: Seq<char>) -> Option<T> {
    if exists|i: int| 0 <= i < keys.len() && keys[i] == key {
        slots[choose|i: int| 0 <= i < keys.len() && keys[i] == key]
    } else {
        None
    }
}

/// With distinct names, the slot of the name at place `i` is the one at `i`.
proof fn lemma_slot_at<T>(keys: Seq<Seq<char>>, slots: Seq<Option<T>>, i: int)
    requires
        0 <= i < keys.len(),
        forall|a: int, b: int| 0 <= a < b < keys.len() ==> keys[a] != keys[b],
    ensures
        slot_of(keys, slots, keys[i]) == slots[i],
{
    let j = choose|j: int| 0 <= j < keys.len() && keys[j] == keys[i];
    assert(keys[j] == keys[i]);
    if j < i {
        assert(keys[j] != keys[i]);
    }
    if i < j {
        assert(keys[i] != keys[j]);
    }
}

impl<T> LatestByChunk<T> {
    #[verifier::type_invariant]
    spec fn inv(self) -> bool {
        &&& self.keys@.len() == self.slots@.len()
        &&& forall|i: int, j: int|
            0 <= i < j < self.keys@.len() ==> self.keys@[i]@ != self.keys@[j]@
    }

    /// The value kept for the chunk named `key`, if any.
    pub closed spec fn latest(self, key: Seq<char>) -> Option<T> {
        slot_of(ids_view(self.keys@), self.slots@, key)
    }

    /// Nothing kept.
    pub fn new() -> (m: LatestByChunk<T>)
        ensures
            forall|k: Seq<char>| m.latest(k) is None,
    {
        LatestByChunk { keys: Vec::new(), slots: Vec::new() }
    }

    /// Puts `slot` at place `i`, the other places unchanged.
    fn set_slot(&mut self, i: usize, slot: Option<T>)
        requires
            i < old(self).keys@.len(),
        ensures
            final(self).keys@ == old(self).keys@,
            final(self).slots@ == old(self).slots@.update(i as int, slot),
    {
        let mut this = LatestByChunk { keys: Vec::new(), slots: Vec::new() };
        std::mem::swap(&mut this, self);
        proof {
            use_type_invariant(&this);
        }
        let LatestByChunk { keys, mut slots } = this;
        let ghost before = slots@;
        let _ = slots.remove(i);
        slots.insert(i, slot);
        assert(slots@ =~= before.update(i as int, slot));
        *self = LatestByChunk { keys, slots };
    }

    /// Keeps `value` for the chunk named `key`, in place of any value kept
    /// for it.
    pub fn insert(&mut self, key: String, value: T)
        ensures
            final(self).latest(key@) == Some(value),
            forall|k: Seq<char>| k != key@ ==> final(self).latest(k) == old(self).latest(k),
    {
        proof {
            use_type_invariant(&*self);
        }
        let ghost old_keys = ids_view(self.keys@);
        let ghost old_slots = self.slots@;
        let ghost kv = key@;
        match first_position(&self.keys, &key) {
            Some(i) => {
                self.set_slot(i, Some(value));
                proof {
                    use_type_invariant(&*self);
                    assert(ids_view(self.keys@) == old_keys);
                    lemma_slot_at(old_keys, self.slots@, i as int);
                    assert forall|k: Seq<char>| k != kv implies #[trigger] slot_of(old_keys, self.slots@, k)
                        == slot_of(old_keys, old_slots, k) by {
                        if exists|j: int| 0 <= j < old_keys.len() && old_keys[j] == k {
                            let j = choose|j: int| 0 <= j < old_keys.len() && old_keys[j] == k;
                            assert(j != i);
                            lemma_slot_at(old_keys, self.slots@, j);
                            lemma_slot_at(old_keys, old_slots, j);
                        }
                    }
                }
            },
            None => {
                let mut this = LatestByChunk { keys: Vec::new(), slots: Vec::new() };
                std::mem::swap(&mut this, self);
                proof {
                    use_type_invariant(&this);
                }
                let LatestByChunk { mut keys, mut slots } = this;
                let n = keys.len();
                keys.push(key);
                slots.push(Some(value));
                proof {
                    lemma_ids_push(this.keys@, keys@[n as int]);
                    assert(ids_view(keys@) =~= old_keys.push(kv));
                    assert forall|a: int, b: int| 0 <= a < b < keys@.len() implies keys@[a]@ != keys@[b]@ by {
                        if b == n {
                            assert(old_keys[a] == keys@[a]@);
                        }
                    }
                }
                *self = LatestByChunk { keys, slots };
                proof {
                    let new_keys = ids_view(self.keys@);
                    assert(new_keys =~= old_keys.push(kv));
                    lemma_slot_at(new_keys, self.slots@, n as int);
                    assert forall|k: Seq<char>| k != kv implies #[trigger] slot_of(new_keys, self.slots@, k)
                        == slot_of(old_keys, old_slots, k) by {
                        if exists|j: int| 0 <= j < old_keys.len() && old_keys[j] == k {
                            let j = choose|j: int| 0 <= j < old_keys.len() && old_keys[j] == k;
                            lemma_slot_at(new_keys, self.slots@, j);
                            lemma_slot_at(old_keys, old_slots, j);
                        }
                        if exists|j: int| 0 <= j < new_keys.len() && new_keys[j] == k {
                            let j = choose|j: int| 0 <= j < new_keys.len() && new_keys[j] == k;
                            assert(j < n);
                            assert(old_keys[j] == k);
                        }
                    }
                }
            },
        }
    }

    /// Takes the value kept for the chunk named `key`, if any, and forgets it.
    pub fn take(&mut self, key: &String) -> (r: Option<T>)
        ensures
            r == old(self).latest(key@),
            final(self).latest(key@) is None,
            forall|k: Seq<char>| k != key@ ==> final(self).latest(k) == old(self).latest(k),
    {
        proof {
            use_type_invariant(&*self);
        }
        let ghost old_keys = ids_view(self.keys@);
        let ghost old_slots = self.slots@;
        match first_position(&self.keys, key) {
            Some(i) => {
                let mut this = LatestByChunk { keys: Vec::new(), slots: Vec::new() };
                std::mem::swap(&mut this, self);
                proof {
                    use_type_invariant(&this);
                }
                let LatestByChunk { keys, mut slots } = this;
                let taken = slots.remove(i);
                slots.insert(i, None);
                assert(slots@ =~= old_slots.update(i as int, None));
                *self = LatestByChunk { keys, slots };
                proof {
                    use_type_invariant(&*self);
                    assert(ids_view(self.keys@) == old_keys);
                    lemma_slot_at(old_keys, self.slots@, i as int);
                    lemma_slot_at(old_keys, old_slots, i as int);
                    assert forall|k: Seq<char>| k != key@ implies #[trigger] slot_of(old_keys, self.slots@, k)
                        == slot_of(old_keys, old_slots, k) by {
                        if exists|j: int| 0 <= j < old_keys.len() && old_keys[j] == k {
                            let j = choose|j: int| 0 <= j < old_keys.len() && old_keys[j] == k;
                            assert(j != i);
                            lemma_slot_at(old_keys, self.slots@, j);
                            lemma_slot_at(old_keys, old_slots, j);
                        }
                    }
                }
                taken
            },
            None => {
                proof {
                    assert(!(exists|j: int| 0 <= j < old_keys.len() && old_keys[j] == key@));
                }
                None
            },
        }
    }
}

/// Whether `batches` cut `items` into runs of 501, the last run shorter and
/// not empty: how stored strokes are handed to storage, a batch each time the
/// pending list grows past 500.
pub open spec fn is_batching<T>(items: Seq<T>, batches: Seq<Seq<T>>) -> bool {
    &&& batches.len() == (if items.len() == 0 { 0 } else { (items.len() - 1) / 501 + 1 })
    &&& forall|b: int| 0 <= b < batches.len() ==> #[trigger] batches[b] == items.subrange(
        501 * b,
        if 501 * b + 501 <= items.len() { 501 * b + 501 } else { items.len() as int },
    )
}

proof fn lemma_batch_count(n: int, b: int, d: int)
    requires
        n == 501 * b + d,
        0 <= d <= 501,
        0 <= b,
    ensures
        0 < d ==> (n - 1) / 501 == b,
        d == 0 && n > 0 ==> (n - 1) / 501 + 1 == b,
        d == 0 ==> (n == 0 <==> b == 0),
{
    assert(0 < d ==> (n - 1) / 501 == b) by (nonlinear_arith)
        requires
            n == 501 * b + d,
            0 <= d <= 501,
            0 <= b,
    {
    }
    assert(d == 0 && n > 0 ==> (n - 1) / 501 + 1 == b) by (nonlinear_arith)
        requires
            n == 501 * b + d,
            0 <= d <= 501,
            0 <= b,
    {
    }
}

/// Cuts `items` into the batches that are handed to storage one by one.
pub fn split_batches<T>(items: Vec<T>) -> (r: Vec<Vec<T>>)
    ensures
        is_batching(items@, r@.map_values(|b: Vec<T>| b@)),
{
    let ghost all = items@;
    let ghost n = all.len() as int;
    let mut batches: Vec<Vec<T>> = Vec::new();
    let mut rest = items;
    assert(rest@ =~= all.subrange(0, n));
    while rest.len() > 501
        invariant
            n == all.len(),
            501 * batches@.len() <= n,
            rest@ == all.subrange(501 * batches@.len() as int, n),
            forall|b: int| 0 <= b < batches@.len() ==> #[trigger] batches@[b]@ == all.subrange(501 * b, 501 * b + 501),
        decreases rest@.len(),
    {
        let ghost start = 501 * batches@.len() as int;
        let tail = rest.split_off(501);
        assert(rest@ =~= all.subrange(start, start + 501));
        assert(tail@ =~= all.subrange(start + 501, n));
        batches.push(rest);
        rest = tail;
    }
    let ghost full = batches@.len();
    proof {
        lemma_batch_count(n, full as int, rest@.len() as int);
    }
    if rest.len() > 0 {
        batches.push(rest);
    }
    let ghost v = batches@.map_values(|b: Vec<T>| b@);
    assert forall|b: int| 0 <= b < v.len() implies #[trigger] v[b] == all.subrange(
        501 * b,
        if 501 * b + 501 <= all.len() { 501 * b + 501 } else { all.len() as int },
    ) by {
        if b < full {
            assert(v[b] == batches@[b]@);
        }
    }
    batches
}


/// Where the first `k` batches end in the items.
pub open spec fn batches_end(n: int, k: int) -> int {
    if 501 * k <= n { 501 * k } else { n }
}

proof fn lemma_batch_starts_inside(n: int, b: int)
    requires
        n > 0,
        0 <= b < (n - 1) / 501 + 1,
    ensures
        501 * b < n,
{
    assert(501 * b <= 501 * ((n - 1) / 501)) by (nonlinear_arith)
        requires
            0 <= b <= (n - 1) / 501,
    {
    }
    assert(501 * ((n - 1) / 501) <= n - 1) by (nonlinear_arith)
        requires
            n > 0,
    {
    }
}

proof fn lemma_batches_reach_end(n: int)
    requires
        n > 0,
    ensures
        501 * ((n - 1) / 501 + 1) >= n,
{
    assert(501 * ((n - 1) / 501 + 1) >= n) by (nonlinear_arith)
        requires
            n > 0,
    {
    }
}

proof fn lemma_batch_prefix<T>(items: Seq<T>, batches: Seq<Seq<T>>, k: int)
    requires
        is_batching(items, batches),
        0 <= k <= batches.len(),
    ensures
        batches.take(k).flatten_alt() == items.take(batches_end(items.len() as int, k)),
    decreases k,
{
    let n = items.len() as int;
    if k == 0 {
        assert(batches.take(0) =~= Seq::<Seq<T>>::empty());
        assert(items.take(0) =~= Seq::<T>::empty());
    } else {
        lemma_batch_prefix(items, batches, k - 1);
        lemma_batch_starts_inside(n, k - 1);
        let prev = batches.take(k - 1);
        assert(batches.take(k).drop_last() =~= prev);
        assert(batches.take(k).last() == batches[k - 1]);
        assert(batches_end(n, k - 1) == 501 * (k - 1));
        assert(items.take(501 * (k - 1)) + items.subrange(501 * (k - 1), batches_end(n, k)) =~= items.take(
            batches_end(n, k),
        ));
    }
}

/// Handing the batches to storage one after the other hands over every
/// stroke once, in order, never more than 501 and never none at a time.
pub proof fn law_batches_cover_items<T>(items: Seq<T>, batches: Seq<Seq<T>>)
    requires
        is_batching(items, batches),
    ensures
        batches.flatten() == items,
        forall|b: int| 0 <= b < batches.len() ==> 0 < #[trigger] batches[b].len() <= 501,
{
    let n = items.len() as int;
    lemma_batch_prefix(items, batches, batches.len() as int);
    assert(batches.take(batches.len() as int) =~= batches);
    batches.lemma_flatten_and_flatten_alt_are_equivalent();
    if n > 0 {
        lemma_batches_reach_end(n);
        assert forall|b: int| 0 <= b < batches.len() implies 0 < #[trigger] batches[b].len() <= 501 by {
            lemma_batch_starts_inside(n, b);
        }
    }
    assert(items.take(n) =~= items);
}

} // verus!
