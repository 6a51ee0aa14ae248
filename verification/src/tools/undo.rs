//! Undo: the strokes finished here, newest last, taken back one at a time.

use vstd::prelude::*;

verus! {

/// The strokes that can be undone, each named by its time (bits of an `f64`)
/// and tag, oldest first.
pub struct UndoQueue {
    pub entries: Vec<(u64, u32)>,
}

impl UndoQueue {
    /// Nothing to undo.
    pub fn new() -> (q: UndoQueue)
        ensures
            q.entries@ == Seq::<(u64, u32)>::empty(),
    {
        UndoQueue { entries: Vec::new() }
    }

    /// Records a finished stroke; strokes of other peers (with an owner) are
    /// not recorded.
    pub fn store_finished(&mut self, timestamp: u64, id_random: u32, has_owner: bool)
        ensures
            has_owner ==> final(self).entries@ == old(self).entries@,
            !has_owner ==> final(self).entries@ == old(self).entries@.push((timestamp, id_random)),
    {
        if has_owner {
            return;
        }
        self.entries.push((timestamp, id_random));
    }

    /// Takes the newest recorded stroke, if any, to be deleted.
    pub fn undo(&mut self) -> (r: Option<(u64, u32)>)
        ensures
            old(self).entries@.len() == 0 ==> r is None && final(self).entries@ == old(self).entries@,
            old(self).entries@.len() > 0 ==> r == Some(old(self).entries@.last())
                && final(self).entries@ == old(self).entries@.drop_last(),
    {
        self.entries.pop()
    }
}

/// Undoing right after recording a stroke of one's own takes back that
/// stroke and leaves the queue as it was.
pub proof fn law_undo_last(entries: Seq<(u64, u32)>, timestamp: u64, id_random: u32)
    ensures
        entries.push((timestamp, id_random)).last() == (timestamp, id_random),
        entries.push((timestamp, id_random)).drop_last() == entries,
{
    assert(entries.push((timestamp, id_random)).drop_last() =~= entries);
}

} // verus!
