//! The arena-backed singly linked list that holds a parsed line's key/value
//! pairs and spans, newest first.

use vstd::prelude::*;

verus! {

/// A list whose cells are shared references, so that a cell can live in an
/// arena and be pointed at by the cell pushed in front of it.
pub enum LinkedList<'b, T> {
    Empty,
    Cons { next: &'b LinkedList<'b, T>, item: T },
}

/// The key/value pairs of one JSON object, the pair read last first.
pub type JsonMap<'b> = LinkedList<'b, (&'b str, &'b str)>;

impl<'b, T> LinkedList<'b, T> {
    /// The items of the list, from the front cell to the last one.
    pub open spec fn items(&self) -> Seq<T>
        decreases self,
    {
        match self {
            LinkedList::Empty => Seq::empty(),
            LinkedList::Cons { next, item } => seq![*item] + next.items(),
        }
    }

    /// A cursor that hands out the items from the front.
    pub fn iter(&'b self) -> (it: LinkedListIter<'b, T>)
        ensures
            it.entry == self,
            it.remaining() == self.items(),
    {
        LinkedListIter { entry: self }
    }
}

impl<'b, T> Default for &'b LinkedList<'b, T> {
    /// The empty list.
    fn default() -> (r: Self)
        ensures
            r.items() == Seq::<T>::empty(),
    {
        &LinkedList::Empty
    }
}

/// The view of a JSON object's pairs as character sequences.
pub open spec fn pairs_view(m: &JsonMap) -> Seq<(Seq<char>, Seq<char>)> {
    m.items().map_values(|kv: (&str, &str)| (kv.0@, kv.1@))
}

/// Pushing a pair in front of a map puts its view in front of the map's view.
pub proof fn lemma_pairs_view_cons<'b>(next: &'b JsonMap<'b>, k: &'b str, v: &'b str)
    ensures
        pairs_view(&LinkedList::Cons { next, item: (k, v) }) == seq![(k@, v@)] + pairs_view(next),
{
    let l = LinkedList::Cons { next, item: (k, v) };
    assert(l.items() == seq![(k, v)] + next.items());
    assert(pairs_view(&l) =~= seq![(k@, v@)] + pairs_view(next));
}

/// The list behind a pushed cell is the cell's item in front of the rest.
pub proof fn lemma_items_cons<'b, T>(l: &'b LinkedList<'b, T>, next: &'b LinkedList<'b, T>, item: T)
    requires
        *l == (LinkedList::Cons { next, item }),
    ensures
        l.items() == seq![item] + next.items(),
        l.items().drop_first() == next.items(),
{
    assert(l.items().drop_first() =~= next.items());
}

/// A cursor over the items of a `LinkedList`.
pub struct LinkedListIter<'b, T> {
    pub entry: &'b LinkedList<'b, T>,
}

impl<'b, T> LinkedListIter<'b, T> {
    /// The items not handed out yet.
    pub open spec fn remaining(&self) -> Seq<T> {
        self.entry.items()
    }

    /// Hands out the front item of what remains and moves past it; `None`
    /// once nothing remains.
    pub fn next(&mut self) -> (r: Option<&'b T>)
        ensures
            old(self).remaining().len() == 0 ==> r is None && final(self).remaining() == old(
                self,
            ).remaining(),
            old(self).remaining().len() > 0 ==> (r matches Some(x) && *x == old(self).remaining()[0]
                && final(self).remaining() == old(self).remaining().drop_first()),
    {
        match self.entry {
            LinkedList::Empty => None,
            LinkedList::Cons { next, item } => {
                proof {
                    assert(old(self).remaining().drop_first() =~= next.items());
                }
                self.entry = *next;
                Some(item)
            },
        }
    }
}

} // verus!
