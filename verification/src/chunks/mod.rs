//! The canvas is cut into square chunks, each named by a string. This module
//! keeps track of which chunks are loaded and decides what to load or drop
//! when the view moves.

use vstd::prelude::*;

pub mod chunk;

verus! {

/// The names in a list of strings.
pub open spec fn ids_view(v: Seq<String>) -> Seq<Seq<char>> {
    v.map_values(|s: String| s@)
}

/// Pushing a string pushes its text.
pub proof fn lemma_ids_push(v: Seq<String>, x: String)
    ensures
        ids_view(v.push(x)) == ids_view(v).push(x@),
{
    assert(ids_view(v.push(x)) =~= ids_view(v).push(x@));
}

/// The names in a list of named positions.
pub open spec fn visible_ids<P>(v: Seq<(String, P)>) -> Seq<Seq<char>> {
    v.map_values(|e: (String, P)| e.0@)
}

/// A list of named positions with the names as text.
pub open spec fn visible_view<P>(v: Seq<(String, P)>) -> Seq<(Seq<char>, P)> {
    v.map_values(|e: (String, P)| (e.0@, e.1))
}

/// Whether `list` holds the name `id`.
pub fn contains_id(list: &Vec<String>, id: &String) -> (r: bool)
    ensures
        r == ids_view(list@).contains(id@),
{
    let mut i: usize = 0;
    while i < list.len()
        invariant
            i <= list@.len(),
            forall|j: int| 0 <= j < i ==> list@[j]@ != id@,
        decreases list.len() - i,
    {
        if list[i] == *id {
            assert(ids_view(list@)[i as int] == id@);
            return true;
        }
        i = i + 1;
    }
    assert(!ids_view(list@).contains(id@)) by {
        if ids_view(list@).contains(id@) {
            let j = choose|j: int| 0 <= j < ids_view(list@).len() && ids_view(list@)[j] == id@;
            assert(list@[j]@ == id@);
        }
    }
    false
}

/// Whether a list of named positions holds the name `id`.
pub fn visible_contains<P>(v: &Vec<(String, P)>, id: &String) -> (r: bool)
    ensures
        r == visible_ids(v@).contains(id@),
{
    let mut i: usize = 0;
    while i < v.len()
        invariant
            i <= v@.len(),
            forall|j: int| 0 <= j < i ==> v@[j].0@ != id@,
        decreases v.len() - i,
    {
        if v[i].0 == *id {
            assert(visible_ids(v@)[i as int] == id@);
            return true;
        }
        i = i + 1;
    }
    assert(!visible_ids(v@).contains(id@)) by {
        if visible_ids(v@).contains(id@) {
            let j = choose|j: int| 0 <= j < visible_ids(v@).len() && visible_ids(v@)[j] == id@;
            assert(v@[j].0@ == id@);
        }
    }
    false
}

/// Adds a visible chunk to the list, unless a chunk of that name is there.
pub fn add_visible<P>(visible: &mut Vec<(String, P)>, id: String, pos: P)
    ensures
        visible_ids(old(visible)@).contains(id@) ==> final(visible)@ == old(visible)@,
        !visible_ids(old(visible)@).contains(id@) ==> final(visible)@ == old(visible)@.push(
            (id, pos),
        ),
{
    if !visible_contains(visible, &id) {
        visible.push((id, pos));
    }
}

/// A chunk came into view at a position, or went out of view.
pub enum ChunkEvent<P> {
    Visible(String, P),
    NotVisible(String),
}

/// The mathematical value of a [`ChunkEvent`].
pub enum ChunkEventModel<P> {
    Visible(Seq<char>, P),
    NotVisible(Seq<char>),
}

impl<P> View for ChunkEvent<P> {
    type V = ChunkEventModel<P>;

    open spec fn view(&self) -> ChunkEventModel<P> {
        match self {
            ChunkEvent::Visible(id, p) => ChunkEventModel::Visible(id@, *p),
            ChunkEvent::NotVisible(id) => ChunkEventModel::NotVisible(id@),
        }
    }
}

/// The values of a list of events.
pub open spec fn events_view<P>(v: Seq<ChunkEvent<P>>) -> Seq<ChunkEventModel<P>> {
    v.map_values(|e: ChunkEvent<P>| e@)
}

/// A `NotVisible` event, in order, for each loaded chunk that is not visible.
pub open spec fn hidden_events<P>(loaded: Seq<Seq<char>>, visible: Seq<Seq<char>>) -> Seq<
    ChunkEventModel<P>,
>
    decreases loaded.len(),
{
    if loaded.len() == 0 {
        Seq::empty()
    } else {
        let r = hidden_events(loaded.drop_last(), visible);
        if visible.contains(loaded.last()) {
            r
        } else {
            r.push(ChunkEventModel::NotVisible(loaded.last()))
        }
    }
}

/// A `Visible` event, in order, for each visible chunk that is not loaded.
pub open spec fn shown_events<P>(visible: Seq<(Seq<char>, P)>, loaded: Seq<Seq<char>>) -> Seq<
    ChunkEventModel<P>,
>
    decreases visible.len(),
{
    if visible.len() == 0 {
        Seq::empty()
    } else {
        let r = shown_events(visible.drop_last(), loaded);
        if loaded.contains(visible.last().0) {
            r
        } else {
            r.push(ChunkEventModel::Visible(visible.last().0, visible.last().1))
        }
    }
}

/// When the view moves, every loaded chunk that is no longer visible gets a
/// `NotVisible` event, in the order the chunks were loaded, and no other
/// chunk does.
pub proof fn law_hidden_are_loaded_not_visible<P>(loaded: Seq<Seq<char>>, visible: Seq<Seq<char>>)
    ensures
        hidden_events::<P>(loaded, visible) == loaded.filter_map(
            |id: Seq<char>|
                if visible.contains(id) {
                    None
                } else {
                    Some(ChunkEventModel::<P>::NotVisible(id))
                },
        ),
    decreases loaded.len(),
{
    if loaded.len() > 0 {
        law_hidden_are_loaded_not_visible::<P>(loaded.drop_last(), visible);
        let r = hidden_events::<P>(loaded.drop_last(), visible);
        if !visible.contains(loaded.last()) {
            assert(r.push(ChunkEventModel::<P>::NotVisible(loaded.last())) =~= r + seq![
                ChunkEventModel::<P>::NotVisible(loaded.last()),
            ]);
        }
    }
}

/// When the view moves, every visible chunk that was not loaded gets a
/// `Visible` event with its position, in the order the chunks are visible,
/// and no other chunk does.
pub proof fn law_shown_are_visible_not_loaded<P>(visible: Seq<(Seq<char>, P)>, loaded: Seq<Seq<char>>)
    ensures
        shown_events::<P>(visible, loaded) == visible.filter_map(
            |v: (Seq<char>, P)|
                if loaded.contains(v.0) {
                    None
                } else {
                    Some(ChunkEventModel::<P>::Visible(v.0, v.1))
                },
        ),
    decreases visible.len(),
{
    if visible.len() > 0 {
        law_shown_are_visible_not_loaded::<P>(visible.drop_last(), loaded);
        let r = shown_events::<P>(visible.drop_last(), loaded);
        let v = visible.last();
        if !loaded.contains(v.0) {
            assert(r.push(ChunkEventModel::<P>::Visible(v.0, v.1)) =~= r + seq![
                ChunkEventModel::<P>::Visible(v.0, v.1),
            ]);
        }
    }
}

/// The chunks that the view has loaded.
pub struct ChunkController {
    pub loaded_chunks: Vec<String>,
}

impl ChunkController {
    /// A controller with nothing loaded.
    pub fn new() -> (c: ChunkController)
        ensures
            c.loaded_chunks@ == Seq::<String>::empty(),
    {
        ChunkController { loaded_chunks: Vec::new() }
    }

    /// Takes the chunks now visible: gives a `NotVisible` event for each
    /// loaded chunk that is no longer visible, then a `Visible` event for
    /// each visible chunk not loaded before, and makes the visible chunks the
    /// loaded ones.
    pub fn update_visible<P: Copy>(&mut self, visible: &Vec<(String, P)>) -> (events: Vec<
        ChunkEvent<P>,
    >)
        ensures
            events_view(events@) == hidden_events::<P>(
                ids_view(old(self).loaded_chunks@),
                visible_ids(visible@),
            ) + shown_events(visible_view(visible@), ids_view(old(self).loaded_chunks@)),
            ids_view(final(self).loaded_chunks@) == visible_ids(visible@),
    {
        let ghost loaded = ids_view(self.loaded_chunks@);
        let ghost vis = visible_ids(visible@);
        let mut events: Vec<ChunkEvent<P>> = Vec::new();
        let mut i: usize = 0;
        assert(events_view(events@) =~= hidden_events::<P>(loaded.take(0), vis));
        while i < self.loaded_chunks.len()
            invariant
                i <= self.loaded_chunks@.len(),
                loaded == ids_view(self.loaded_chunks@),
                vis == visible_ids(visible@),
                events_view(events@) == hidden_events::<P>(loaded.take(i as int), vis),
            decreases self.loaded_chunks.len() - i,
        {
            let ghost before = events@;
            if !visible_contains(visible, &self.loaded_chunks[i]) {
                events.push(ChunkEvent::NotVisible(self.loaded_chunks[i].clone()));
            }
            proof {
                assert(loaded.take(i + 1).drop_last() =~= loaded.take(i as int));
                assert(loaded.take(i + 1).last() == self.loaded_chunks@[i as int]@);
            }
            i = i + 1;
            assert(events_view(events@) =~= hidden_events::<P>(loaded.take(i as int), vis));
        }
        assert(loaded.take(i as int) =~= loaded);
        let ghost hidden = events_view(events@);
        let ghost vv = visible_view(visible@);
        let mut k: usize = 0;
        let mut new_loaded: Vec<String> = Vec::new();
        assert(events_view(events@) =~= hidden + shown_events(vv.take(0), loaded));
        while k < visible.len()
            invariant
                k <= visible@.len(),
                loaded == ids_view(self.loaded_chunks@),
                vv == visible_view(visible@),
                events_view(events@) == hidden + shown_events(vv.take(k as int), loaded),
                ids_view(new_loaded@) == visible_ids(visible@).take(k as int),
            decreases visible.len() - k,
        {
            let ghost before = events@;
            let ghost before_loaded = new_loaded@;
            let name = visible[k].0.clone();
            let pos = visible[k].1;
            assert(name@ == visible@[k as int].0@);
            if !contains_id(&self.loaded_chunks, &visible[k].0) {
                events.push(ChunkEvent::Visible(name.clone(), pos));
                assert(events_view(events@) =~= events_view(before).push(
                    ChunkEventModel::Visible(name@, pos),
                ));
            }
            new_loaded.push(name);
            assert(ids_view(new_loaded@) =~= ids_view(before_loaded).push(visible@[k as int].0@));
            proof {
                assert(vv.take(k + 1).drop_last() =~= vv.take(k as int));
                assert(vv.take(k + 1).last() == (visible@[k as int].0@, visible@[k as int].1));
            }
            k = k + 1;
            assert(events_view(events@) =~= hidden + shown_events(vv.take(k as int), loaded));
            assert(ids_view(new_loaded@) =~= visible_ids(visible@).take(k as int));
        }
        assert(vv.take(k as int) =~= vv);
        assert(visible_ids(visible@).take(k as int) =~= visible_ids(visible@));
        self.loaded_chunks = new_loaded;
        events
    }
}

} // verus!
