//! The handler registry: at most one handler for each event tag, found by
//! the tag of an incoming event.

use vstd::prelude::*;

verus! {

/// The handler that is registered for one event tag.
pub struct HandlerEntry<H> {
    pub event_tag: u8,
    pub handler: H,
}

/// The handlers, in the order in which they were registered.
pub struct HandlerRegistry<H> {
    entries: Vec<HandlerEntry<H>>,
}

impl<H> View for HandlerRegistry<H> {
    type V = Seq<HandlerEntry<H>>;

    closed spec fn view(&self) -> Seq<HandlerEntry<H>> {
        self.entries@
    }
}

impl<H> HandlerRegistry<H> {
    /// No event tag has two handlers.
    pub open spec fn wf(&self) -> bool {
        forall|i: int, j: int|
            0 <= i < j < self@.len() ==> self@[i].event_tag != self@[j].event_tag
    }

    /// Whether the entry at `i` is for `event_tag`.
    pub open spec fn handles_at(&self, i: int, event_tag: u8) -> bool {
        0 <= i < self@.len() && self@[i].event_tag == event_tag
    }

    /// Whether some entry is for `event_tag`.
    pub open spec fn handles(&self, event_tag: u8) -> bool {
        exists|i: int| self.handles_at(i, event_tag)
    }

    /// Whether the entry at `i` is the first one for `event_tag`.
    pub open spec fn first_for(&self, i: int, event_tag: u8) -> bool {
        self.handles_at(i, event_tag) && forall|j: int|
            0 <= j < i ==> !self.handles_at(j, event_tag)
    }

    /// The index of the first entry for `event_tag`, if there is one.
    pub open spec fn spec_find(&self, event_tag: u8) -> Option<int> {
        if self.handles(event_tag) {
            Some(choose|i: int| self.first_for(i, event_tag))
        } else {
            None
        }
    }

    /// An empty registry.
    pub fn new() -> (r: HandlerRegistry<H>)
        ensures
            r@ == Seq::<HandlerEntry<H>>::empty(),
            r.wf(),
    {
        HandlerRegistry { entries: Vec::new() }
    }

    /// How many handlers are registered.
    pub fn len(&self) -> (r: usize)
        ensures
            r == self@.len(),
    {
        self.entries.len()
    }

    /// The entry at `index`, in registration order.
    pub fn get(&self, index: usize) -> (r: Option<&HandlerEntry<H>>)
        ensures
            r.is_some() <==> index < self@.len(),
            r matches Some(e) ==> *e == self@[index as int],
    {
        if index < self.entries.len() {
            Some(&self.entries[index])
        } else {
            None
        }
    }

    /// Registers `handler` for `event_tag` and says whether it was taken. A
    /// tag that already has a handler keeps it: the registry stays as it was.
    pub fn register(&mut self, event_tag: u8, handler: H) -> (r: bool)
        requires
            old(self).wf(),
        ensures
            final(self).wf(),
            r == !old(self).handles(event_tag),
            r ==> final(self)@ == old(self)@.push((HandlerEntry { event_tag, handler })),
            !r ==> final(self)@ == old(self)@,
    {
        if self.find(event_tag).is_some() {
            return false;
        }
        self.entries.push(HandlerEntry { event_tag, handler });
        proof {
            let last = old(self)@.len() as int;
            assert forall|i: int, j: int| 0 <= i < j < self@.len() implies self@[i].event_tag
                != self@[j].event_tag by {
                if j == last {
                    assert(!old(self).handles_at(i, event_tag));
                }
            }
        }
        true
    }

    /// The index of the handler that is registered for `event_tag`.
    pub fn find(&self, event_tag: u8) -> (r: Option<usize>)
        ensures
            r.is_some() <==> self.handles(event_tag),
            match r {
                Some(i) => self.first_for(i as int, event_tag) && self.spec_find(event_tag)
                    == Some(i as int),
                None => self.spec_find(event_tag).is_none() && forall|j: int|
                    !self.handles_at(j, event_tag),
            },
    {
        let mut i: usize = 0;
        while i < self.entries.len()
            invariant
                i <= self@.len(),
                forall|j: int| 0 <= j < i ==> !self.handles_at(j, event_tag),
            decreases self@.len() - i,
        {
            if self.entries[i].event_tag == event_tag {
                proof {
                    assert(self.handles_at(i as int, event_tag));
                    self.lemma_first_found(i as int, event_tag);
                }
                return Some(i);
            }
            i += 1;
        }
        None
    }

    /// The handler to invoke for an event with `event_tag`, or nothing when
    /// the tag is unhandled, which is no error. The caller invokes it.
    pub fn dispatch(&self, event_tag: u8) -> (r: Option<&H>)
        ensures
            r.is_some() <==> self.handles(event_tag),
            match r {
                Some(handler) => self.spec_find(event_tag).is_some() && *handler
                    == self@[self.spec_find(event_tag).unwrap()].handler && self.first_for(
                    self.spec_find(event_tag).unwrap(),
                    event_tag,
                ),
                None => self.spec_find(event_tag).is_none(),
            },
    {
        match self.find(event_tag) {
            Some(i) => Some(&self.entries[i].handler),
            None => None,
        }
    }

    /// A first entry for a tag is what `spec_find` gives.
    pub proof fn lemma_first_found(&self, i: int, event_tag: u8)
        requires
            self.first_for(i, event_tag),
        ensures
            self.spec_find(event_tag) == Some(i),
    {
        let chosen = choose|k: int| self.first_for(k, event_tag);
        assert(self.first_for(chosen, event_tag));
        if chosen < i {
            assert(!self.handles_at(chosen, event_tag));
        }
        if i < chosen {
            assert(!self.handles_at(i, event_tag));
        }
    }

    /// In a registry without two handlers for one tag, every entry is the one
    /// that its own tag finds.
    pub proof fn lemma_entry_found(&self, i: int)
        requires
            self.wf(),
            0 <= i < self@.len(),
        ensures
            self.spec_find(self@[i].event_tag) == Some(i),
    {
        let event_tag = self@[i].event_tag;
        assert(self.handles_at(i, event_tag));
        assert forall|j: int| 0 <= j < i implies !self.handles_at(j, event_tag) by {}
        self.lemma_first_found(i, event_tag);
    }
}

} // verus!
