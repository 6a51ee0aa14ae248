//! The peers this player is connected to, and those that joined since the
//! last time they were greeted.

use vstd::prelude::*;

use crate::chunks::{ids_view, lemma_ids_push};

verus! {

/// Whether no name occurs twice.
pub open spec fn distinct(ids: Seq<Seq<char>>) -> bool {
    forall|i: int, j: int| 0 <= i < j < ids.len() ==> ids[i] != ids[j]
}

/// The connected peers, each once, in the order they connected; and the
/// peers that connected and have not been announced yet, oldest first.
pub struct PeerRegistry {
    connected: Vec<String>,
    just_connected: Vec<String>,
}

/// The mathematical value of a [`PeerRegistry`].
#[verifier::ext_equal]
pub struct PeerRegistryModel {
    pub connected: Seq<Seq<char>>,
    pub just_connected: Seq<Seq<char>>,
}

/// The registry after `id` connects: added to both lists unless already
/// connected.
pub open spec fn connect(m: PeerRegistryModel, id: Seq<char>) -> PeerRegistryModel {
    if m.connected.contains(id) {
        m
    } else {
        PeerRegistryModel {
            connected: m.connected.push(id),
            just_connected: m.just_connected.push(id),
        }
    }
}

/// The registry after `id` disconnects: no longer connected.
pub open spec fn disconnect(m: PeerRegistryModel, id: Seq<char>) -> PeerRegistryModel {
    PeerRegistryModel {
        connected: m.connected.filter(|c: Seq<char>| c != id),
        just_connected: m.just_connected,
    }
}

impl View for PeerRegistry {
    type V = PeerRegistryModel;

    closed spec fn view(&self) -> PeerRegistryModel {
        PeerRegistryModel {
            connected: ids_view(self.connected@),
            just_connected: ids_view(self.just_connected@),
        }
    }
}

impl PeerRegistry {
    #[verifier::type_invariant]
    spec fn inv(self) -> bool {
        distinct(ids_view(self.connected@))
    }

    /// No peer connected.
    pub fn new() -> (r: PeerRegistry)
        ensures
            r@.connected == Seq::<Seq<char>>::empty(),
            r@.just_connected == Seq::<Seq<char>>::empty(),
            distinct(r@.connected),
    {
        let r = PeerRegistry { connected: Vec::new(), just_connected: Vec::new() };
        assert(ids_view(r.connected@) =~= Seq::<Seq<char>>::empty());
        assert(ids_view(r.just_connected@) =~= Seq::<Seq<char>>::empty());
        r
    }

    /// A peer connected: unless it is connected already, it is added to the
    /// connected peers and to those to announce.
    pub fn peer_connected(&mut self, peer_id: String)
        ensures
            final(self)@ == connect(old(self)@, peer_id@),
            distinct(final(self)@.connected),
    {
        proof {
            use_type_invariant(&*self);
        }
        if crate::chunks::contains_id(&self.connected, &peer_id) {
            return;
        }
        let ghost before = self.connected@;
        let ghost before_just = self.just_connected@;
        let mut connected: Vec<String> = Vec::new();
        std::mem::swap(&mut connected, &mut self.connected);
        connected.push(peer_id.clone());
        assert(ids_view(connected@) =~= ids_view(before).push(peer_id@));
        assert(distinct(ids_view(connected@))) by {
            assert forall|i: int, j: int|
                0 <= i < j < ids_view(connected@).len() implies ids_view(connected@)[i]
                != ids_view(connected@)[j] by {
                if j == ids_view(before).len() {
                    assert(ids_view(before)[i] == ids_view(connected@)[i]);
                }
            }
        }
        let mut just: Vec<String> = Vec::new();
        std::mem::swap(&mut just, &mut self.just_connected);
        just.push(peer_id);
        assert(ids_view(just@) =~= ids_view(before_just).push(peer_id@));
        *self = PeerRegistry { connected, just_connected: just };
    }

    /// A peer disconnected: it is no longer among the connected peers.
    pub fn peer_disconnected(&mut self, peer_id: &String)
        ensures
            final(self)@ == disconnect(old(self)@, peer_id@),
            distinct(final(self)@.connected),
    {
        proof {
            use_type_invariant(&*self);
        }
        let ghost ids = ids_view(self.connected@);
        let ghost pred = |id: Seq<char>| id != peer_id@;
        let mut kept: Vec<String> = Vec::new();
        let mut i: usize = 0;
        assert(ids.take(0).filter(pred) =~= Seq::<Seq<char>>::empty()) by {
            reveal(Seq::filter);
        }
        while i < self.connected.len()
            invariant
                i <= self.connected@.len(),
                ids == ids_view(self.connected@),
                pred == (|id: Seq<char>| id != peer_id@),
                distinct(ids),
                ids_view(kept@) == ids.take(i as int).filter(pred),
            decreases self.connected.len() - i,
        {
            let ghost before = kept@;
            let keep = !(self.connected[i] == *peer_id);
            if keep {
                let c = self.connected[i].clone();
                kept.push(c);
                proof {
                    lemma_ids_push(before, c);
                }
            }
            proof {
                reveal(Seq::filter);
                let t = ids.take(i + 1);
                assert(t.drop_last() =~= ids.take(i as int));
                assert(t.last() == ids[i as int]);
                assert(ids[i as int] == self.connected@[i as int]@);
                assert(keep == pred(ids[i as int]));
            }
            i = i + 1;
        }
        assert(ids.take(i as int) =~= ids);
        assert(distinct(ids_view(kept@))) by {
            assert forall|a: int, b: int|
                0 <= a < b < ids_view(kept@).len() implies ids_view(kept@)[a] != ids_view(
                kept@,
            )[b] by {
                lemma_filter_distinct(ids, pred, a, b);
            }
        }
        self.connected = kept;
    }

    /// The connected peers.
    pub fn connected(&self) -> (r: Vec<String>)
        ensures
            ids_view(r@) == self@.connected,
            distinct(ids_view(r@)),
    {
        proof {
            use_type_invariant(self);
        }
        let mut out: Vec<String> = Vec::new();
        let mut i: usize = 0;
        while i < self.connected.len()
            invariant
                i <= self.connected@.len(),
                ids_view(out@) == ids_view(self.connected@).take(i as int),
            decreases self.connected.len() - i,
        {
            let ghost before = out@;
            let c = self.connected[i].clone();
            out.push(c);
            proof {
                lemma_ids_push(before, c);
            }
            i = i + 1;
            assert(ids_view(out@) =~= ids_view(self.connected@).take(i as int));
        }
        assert(ids_view(self.connected@).take(i as int) =~= ids_view(self.connected@));
        out
    }

    /// Hands over the peers to announce, oldest first, and forgets them.
    pub fn take_just_connected(&mut self) -> (r: Vec<String>)
        ensures
            ids_view(r@) == old(self)@.just_connected,
            final(self)@.just_connected == Seq::<Seq<char>>::empty(),
            final(self)@.connected == old(self)@.connected,
    {
        proof {
            use_type_invariant(&*self);
        }
        let mut r: Vec<String> = Vec::new();
        std::mem::swap(&mut r, &mut self.just_connected);
        assert(ids_view(self.just_connected@) =~= Seq::<Seq<char>>::empty());
        r
    }
}

proof fn lemma_filter_subset(s: Seq<Seq<char>>, pred: spec_fn(Seq<char>) -> bool, i: int)
    requires
        0 <= i < s.filter(pred).len(),
    ensures
        s.contains(s.filter(pred)[i]),
    decreases s.len(),
{
    reveal(Seq::filter);
    let init = s.drop_last();
    let fi = init.filter(pred);
    if pred(s.last()) && i == fi.len() {
        assert(s[s.len() - 1] == s.filter(pred)[i]);
    } else {
        lemma_filter_subset(init, pred, i);
        let k = choose|k: int| 0 <= k < init.len() && init[k] == fi[i];
        assert(s[k] == init[k]);
    }
}

proof fn lemma_filter_distinct(
    ids: Seq<Seq<char>>,
    pred: spec_fn(Seq<char>) -> bool,
    a: int,
    b: int,
)
    requires
        distinct(ids),
        0 <= a < b < ids.filter(pred).len(),
    ensures
        ids.filter(pred)[a] != ids.filter(pred)[b],
    decreases ids.len(),
{
    reveal(Seq::filter);
    let init = ids.drop_last();
    let fi = init.filter(pred);
    assert(distinct(init)) by {
        assert forall|i: int, j: int| 0 <= i < j < init.len() implies init[i] != init[j] by {
            assert(ids[i] == init[i] && ids[j] == init[j]);
        }
    }
    if pred(ids.last()) {
        if b < fi.len() {
            lemma_filter_distinct(init, pred, a, b);
        } else {
            lemma_filter_subset(init, pred, a);
            let k = choose|k: int| 0 <= k < init.len() && init[k] == fi[a];
            assert(ids[k] == init[k]);
            assert(ids[k] != ids[ids.len() - 1]);
        }
    } else {
        lemma_filter_distinct(init, pred, a, b);
    }
}

/// The peers currently connected.
pub fn get_currently_connected_peers(peers: &PeerRegistry) -> (r: Vec<String>)
    ensures
        ids_view(r@) == peers@.connected,
        distinct(ids_view(r@)),
{
    peers.connected()
}

/// A peer that has just connected, to greet.
pub struct PeerConnectedEvent {
    pub id: String,
}

/// The greetings for the peers that connected since the last call, oldest
/// first; afterwards none is pending.
pub fn connected_peer_events(peers: &mut PeerRegistry) -> (r: Vec<PeerConnectedEvent>)
    ensures
        r@.map_values(|e: PeerConnectedEvent| e.id@) == old(peers)@.just_connected,
        final(peers)@.just_connected == Seq::<Seq<char>>::empty(),
        final(peers)@.connected == old(peers)@.connected,
{
    let ids = peers.take_just_connected();
    let mut out: Vec<PeerConnectedEvent> = Vec::new();
    let mut i: usize = 0;
    while i < ids.len()
        invariant
            i <= ids@.len(),
            out@.map_values(|e: PeerConnectedEvent| e.id@) == ids_view(ids@).take(i as int),
        decreases ids.len() - i,
    {
        let ghost before = out@;
        out.push(PeerConnectedEvent { id: ids[i].clone() });
        assert(out@.map_values(|e: PeerConnectedEvent| e.id@) =~= before.map_values(
            |e: PeerConnectedEvent| e.id@,
        ).push(ids@[i as int]@));
        i = i + 1;
        assert(out@.map_values(|e: PeerConnectedEvent| e.id@) =~= ids_view(ids@).take(i as int));
    }
    assert(ids_view(ids@).take(i as int) =~= ids_view(ids@));
    out
}

/// A peer that connects is connected afterwards, and connecting again
/// changes nothing.
pub proof fn law_connect_idempotent(m: PeerRegistryModel, id: Seq<char>)
    ensures
        connect(m, id).connected.contains(id),
        connect(connect(m, id), id) == connect(m, id),
{
    if !m.connected.contains(id) {
        assert(m.connected.push(id)[m.connected.len() as int] == id);
    }
}

/// A peer that disconnects is not connected afterwards, and no one else is
/// dropped.
pub proof fn law_disconnect_removes(m: PeerRegistryModel, id: Seq<char>, other: Seq<char>)
    requires
        other != id,
    ensures
        !disconnect(m, id).connected.contains(id),
        m.connected.contains(other) ==> disconnect(m, id).connected.contains(other),
{
    let pred = |c: Seq<char>| c != id;
    let f = m.connected.filter(pred);
    if f.contains(id) {
        let k = choose|k: int| 0 <= k < f.len() && f[k] == id;
        m.connected.lemma_filter_pred(pred, k);
    }
    if m.connected.contains(other) {
        let k = choose|k: int| 0 <= k < m.connected.len() && m.connected[k] == other;
        m.connected.lemma_filter_contains(pred, k);
    }
}

/// Connecting keeps the connected peers free of repeats.
pub proof fn law_connect_keeps_distinct(m: PeerRegistryModel, id: Seq<char>)
    requires
        distinct(m.connected),
    ensures
        distinct(connect(m, id).connected),
{
    if !m.connected.contains(id) {
        let c = m.connected.push(id);
        assert forall|i: int, j: int| 0 <= i < j < c.len() implies c[i] != c[j] by {
            if j == m.connected.len() {
                assert(m.connected[i] == c[i]);
            }
        }
    }
}

} // verus!
