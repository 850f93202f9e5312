//! The list of notes the interface shows: new notes are appended, a note
//! that comes again replaces its earlier version in place.
use vstd::prelude::*;

use std::sync::Arc;

use crate::model::Note;
use crate::text::str_eq;

verus! {

/// How many notes the list keeps.
pub const TIMELINE_CAPACITY: usize = 30;

/// The notes shown, oldest first.
pub struct TimelineView {
    notes: Vec<Arc<Note>>,
}

/// The first index of a note with identifier `id`, where there is one.
pub open spec fn first_with_id(notes: Seq<Arc<Note>>, id: Seq<char>) -> Option<int> {
    if exists|i: int| 0 <= i < notes.len() && (#[trigger] notes[i]).id@ == id {
        Some(choose|i: int| 0 <= i < notes.len() && (#[trigger] notes[i]).id@ == id && forall|j: int| 0 <= j < i ==> (#[trigger] notes[j]).id@ != id)
    } else {
        None
    }
}

/// What receiving a note does to the list: it replaces the first note with
/// its identifier, in place; otherwise it goes at the end, and the oldest
/// note goes where the list is then over capacity.
pub open spec fn received(notes: Seq<Arc<Note>>, n: Arc<Note>) -> Seq<Arc<Note>> {
    match first_with_id(notes, n.id@) {
        Some(i) => notes.update(i, n),
        None => if notes.len() + 1 > TIMELINE_CAPACITY {
            notes.push(n).drop_first()
        } else {
            notes.push(n)
        },
    }
}

impl TimelineView {
    pub closed spec fn view(&self) -> Seq<Arc<Note>> {
        self.notes@
    }

    pub fn new() -> (r: Self)
        ensures
            r.view().len() == 0,
    {
        TimelineView { notes: Vec::new() }
    }

    pub fn notes(&self) -> (r: &Vec<Arc<Note>>)
        ensures
            r@ == self.view(),
    {
        &self.notes
    }

    pub fn clear(&mut self)
        ensures
            final(self).view().len() == 0,
    {
        self.notes = Vec::new();
    }

    /// The identifiers of the notes shown, in order.
    pub fn live_ids(&self) -> (r: Vec<String>)
        ensures
            r@.len() == self.view().len(),
            forall|i: int| 0 <= i < r@.len() ==> #[trigger] r@[i]@ == self.view()[i].id@,
    {
        let mut r: Vec<String> = Vec::new();
        let mut i: usize = 0;
        while i < self.notes.len()
            invariant
                i <= self.notes@.len(),
                r@.len() == i,
                forall|j: int| 0 <= j < i ==> #[trigger] r@[j]@ == self.notes@[j].id@,
            decreases self.notes@.len() - i,
        {
            r.push(self.notes[i].id.clone());
            i = i + 1;
        }
        r
    }

    /// Receives a note (see `received`). Returns whether it was new.
    pub fn receive(&mut self, n: Arc<Note>) -> (inserted: bool)
        ensures
            final(self).view() == received(old(self).view(), n),
            inserted == first_with_id(old(self).view(), n.id@) is None,
    {
        let mut i: usize = 0;
        while i < self.notes.len()
            invariant
                i <= self.notes@.len(),
                self.notes@ == old(self).notes@,
                forall|j: int| 0 <= j < i ==> (#[trigger] self.notes@[j]).id@ != n.id@,
            decreases self.notes@.len() - i,
        {
            if str_eq(self.notes[i].id.as_str(), n.id.as_str()) {
                proof {
                    let w = choose|w: int| 0 <= w < self.notes@.len() && (#[trigger] self.notes@[w]).id@ == n.id@
                        && forall|j: int| 0 <= j < w ==> (#[trigger] self.notes@[j]).id@ != n.id@;
                    assert(self.notes@[i as int].id@ == n.id@);
                    if w < i {
                    } else if w > i {
                        assert(self.notes@[i as int].id@ != n.id@);
                    }
                    assert(w == i);
                }
                self.notes.set(i, n);
                return false;
            }
            i = i + 1;
        }
        self.notes.push(n);
        if self.notes.len() > TIMELINE_CAPACITY {
            self.notes.remove(0);
            assert(self.notes@ =~= old(self).notes@.push(n).drop_first());
        }
        true
    }
}

proof fn lemma_first_exists(notes: Seq<Arc<Note>>, id: Seq<char>, k: int)
    requires
        0 <= k <= notes.len(),
        forall|j: int| 0 <= j < k ==> (#[trigger] notes[j]).id@ != id,
        exists|i: int| k <= i < notes.len() && (#[trigger] notes[i]).id@ == id,
    ensures
        exists|w: int| 0 <= w < notes.len() && (#[trigger] notes[w]).id@ == id && forall|j: int| 0 <= j < w ==> (#[trigger] notes[j]).id@ != id,
    decreases notes.len() - k,
{
    if notes[k].id@ == id {
        assert(forall|j: int| 0 <= j < k ==> (#[trigger] notes[j]).id@ != id);
    } else {
        let i = choose|i: int| k <= i < notes.len() && (#[trigger] notes[i]).id@ == id;
        assert(i != k);
        lemma_first_exists(notes, id, k + 1);
    }
}

/// A note that comes again with the identifier of a shown note replaces
/// it: the list keeps its length and holds that identifier no more often
/// than before.
pub proof fn lemma_receive_replaces(notes: Seq<Arc<Note>>, n: Arc<Note>)
    requires
        first_with_id(notes, n.id@) is Some,
    ensures
        received(notes, n).len() == notes.len(),
        received(notes, n)[first_with_id(notes, n.id@)->0] == n,
        forall|j: int| 0 <= j < notes.len() && j != first_with_id(notes, n.id@)->0 ==> #[trigger] received(notes, n)[j] == notes[j],
{
    lemma_first_exists(notes, n.id@, 0);
}

} // verus!
