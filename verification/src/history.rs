//! The conversation history: an exclusively owned, ordered log that grows
//! by append during a turn and is otherwise only replaced wholesale, never
//! partially, by a compaction.

use vstd::prelude::*;

use crate::items::HistoryItem;
use crate::items::HistoryItemView;
use crate::items::copy_history_items;

verus! {

/// The ordered conversation history of one session.
#[derive(Clone, PartialEq, Eq, Debug)]
pub struct History {
    items: Vec<HistoryItem>,
}

impl View for History {
    type V = Seq<HistoryItemView>;

    closed spec fn view(&self) -> Seq<HistoryItemView> {
        self.items.deep_view()
    }
}

impl History {
    /// A session starts with an empty history.
    pub fn new() -> (h: History)
        ensures
            h@ == Seq::<HistoryItemView>::empty(),
    {
        let h = History { items: Vec::new() };
        proof {
            assert(h@ =~~= Seq::<HistoryItemView>::empty());
        }
        h
    }

    /// Append one item during a turn.
    pub fn append(&mut self, item: HistoryItem)
        ensures
            final(self)@ == old(self)@.push(item.deep_view()),
    {
        let ghost dv = item.deep_view();
        let ghost pre = self@;
        self.items.push(item);
        proof {
            assert(self@ =~~= pre.push(dv));
        }
    }

    /// A point-in-time copy, taken before a compaction request is built so
    /// the request never reads the live log.
    pub fn snapshot(&self) -> (r: Vec<HistoryItem>)
        ensures
            r.deep_view() == self@,
    {
        copy_history_items(&self.items)
    }

    /// Atomic wholesale replacement after a successful compaction: the
    /// history is never partially replaced.
    pub fn replace_all(&mut self, new_items: Vec<HistoryItem>)
        ensures
            final(self)@ == new_items.deep_view(),
    {
        self.items = new_items;
    }

    /// Number of items.
    pub fn len(&self) -> (n: usize)
        ensures
            n == self@.len(),
    {
        self.items.len()
    }

    /// Read access to the underlying items.
    pub fn raw_items(&self) -> (r: &Vec<HistoryItem>)
        ensures
            r.deep_view() == self@,
    {
        &self.items
    }
}

} // verus!
