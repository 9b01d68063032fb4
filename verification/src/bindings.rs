//! The key binding table: bindings in registration order, exact matching of
//! (modifier mask, symbol) pairs, and the grabs that make the display server
//! deliver the bound keys.

use vstd::prelude::*;
use crate::keymap::{Layout, NO_KEYCODE};
use crate::protocol::{Request, GRAB_MODIFIER_BITS};

verus! {

/// Whether `bits` holds nothing but flags that a key grab accepts.
pub open spec fn is_modifier_mask(bits: u32) -> bool {
    bits & GRAB_MODIFIER_BITS == bits
}

/// Asks `xcb::x::ModMask::from_bits` for the grab modifiers that `bits`
/// stand for, and hands their bits back. Trusted, not proved: the outside
/// function accepts `bits` exactly when every set bit is one of the mask's
/// flags, and then keeps them unchanged.
#[verifier::external_body]
fn grab_modifiers(bits: u32) -> (r: Option<u32>)
    ensures
        r == (if is_modifier_mask(bits) {
            Some(bits)
        } else {
            None::<u32>
        }),
{
    match xcb::x::ModMask::from_bits(bits) {
        Some(mask) => Some(mask.bits()),
        None => None,
    }
}

/// One binding: the exact modifier mask and the keysym that trigger it, and
/// the action that it owns.
pub struct KeyBinding<A> {
    pub modifier_mask: u32,
    pub symbol: u32,
    pub action: A,
}

/// Why a binding was not taken into the table.
#[derive(Debug, Clone, Copy, PartialEq, Eq)]
pub enum BindingError {
    /// The modifier mask holds a bit that no key grab accepts.
    InvalidModifiers,
}

/// The bindings, in the order in which they were registered.
pub struct KeyTable<A> {
    bindings: Vec<KeyBinding<A>>,
}

/// The grab request that a binding stands for under `layout`.
pub open spec fn grab_of<A>(binding: KeyBinding<A>, layout: Layout) -> Request {
    Request::GrabKey {
        modifiers: binding.modifier_mask,
        keycode: layout.keycode_of(binding.symbol),
    }
}

/// The grab requests of `bindings` under `layout`, in registration order: one
/// for each binding whose symbol resolves, none for the others.
pub open spec fn key_grabs<A>(bindings: Seq<KeyBinding<A>>, layout: Layout) -> Seq<Request>
    decreases bindings.len(),
{
    if bindings.len() == 0 {
        Seq::empty()
    } else {
        let earlier = key_grabs(bindings.drop_last(), layout);
        if layout.resolvable(bindings.last().symbol) {
            earlier.push(grab_of(bindings.last(), layout))
        } else {
            earlier
        }
    }
}

impl<A> View for KeyTable<A> {
    type V = Seq<KeyBinding<A>>;

    closed spec fn view(&self) -> Seq<KeyBinding<A>> {
        self.bindings@
    }
}

impl<A> KeyTable<A> {
    /// Every binding's mask is one that a key grab accepts.
    pub open spec fn wf(&self) -> bool {
        forall|i: int| 0 <= i < self@.len() ==> is_modifier_mask(#[trigger] self@[i].modifier_mask)
    }

    /// Whether the binding at `i` has exactly this pair.
    pub open spec fn matches_at(&self, i: int, modifiers: u32, symbol: u32) -> bool {
        0 <= i < self@.len() && self@[i].modifier_mask == modifiers && self@[i].symbol == symbol
    }

    /// Whether the binding at `i` is the first one with exactly this pair.
    pub open spec fn first_match(&self, i: int, modifiers: u32, symbol: u32) -> bool {
        self.matches_at(i, modifiers, symbol) && forall|j: int|
            0 <= j < i ==> !self.matches_at(j, modifiers, symbol)
    }

    /// The index of the first binding with exactly this pair, if there is one.
    pub open spec fn spec_find(&self, modifiers: u32, symbol: u32) -> Option<int> {
        if exists|i: int| self.matches_at(i, modifiers, symbol) {
            Some(choose|i: int| self.first_match(i, modifiers, symbol))
        } else {
            None
        }
    }

    /// An empty table.
    pub fn new() -> (r: KeyTable<A>)
        ensures
            r@ == Seq::<KeyBinding<A>>::empty(),
            r.wf(),
    {
        KeyTable { bindings: Vec::new() }
    }

    /// How many bindings are registered.
    pub fn len(&self) -> (r: usize)
        ensures
            r == self@.len(),
    {
        self.bindings.len()
    }

    /// The binding at `index`, in registration order.
    pub fn get(&self, index: usize) -> (r: Option<&KeyBinding<A>>)
        ensures
            r.is_some() <==> index < self@.len(),
            r matches Some(b) ==> *b == self@[index as int],
    {
        if index < self.bindings.len() {
            Some(&self.bindings[index])
        } else {
            None
        }
    }

    /// Registers a binding behind those already there. A mask with a bit that
    /// no key grab accepts is refused, and the table stays as it was.
    pub fn bind(&mut self, modifier_mask: u32, symbol: u32, action: A) -> (r: Result<
        usize,
        BindingError,
    >)
        requires
            old(self).wf(),
        ensures
            final(self).wf(),
            is_modifier_mask(modifier_mask) ==> r == Ok::<usize, BindingError>(
                old(self)@.len() as usize,
            ) && final(self)@ == old(self)@.push(
                (KeyBinding { modifier_mask, symbol, action }),
            ),
            !is_modifier_mask(modifier_mask) ==> r == Err::<usize, BindingError>(
                BindingError::InvalidModifiers,
            ) && final(self)@ == old(self)@,
    {
        match grab_modifiers(modifier_mask) {
            Some(mask) => {
                let index: usize = self.bindings.len();
                self.bindings.push(KeyBinding { modifier_mask: mask, symbol, action });
                proof {
                    assert forall|i: int| 0 <= i < self@.len() implies is_modifier_mask(
                        #[trigger] self@[i].modifier_mask,
                    ) by {
                        if i < index {
                            assert(self@[i] == old(self)@[i]);
                        }
                    }
                }
                Ok(index)
            },
            None => Err(BindingError::InvalidModifiers),
        }
    }

    /// Scans the table in registration order for the first binding whose pair
    /// equals the input exactly, and gives its index.
    pub fn find(&self, modifiers: u32, symbol: u32) -> (r: Option<usize>)
        ensures
            match r {
                Some(i) => self.first_match(i as int, modifiers, symbol) && self.spec_find(
                    modifiers,
                    symbol,
                ) == Some(i as int),
                None => self.spec_find(modifiers, symbol).is_none() && forall|j: int|
                    !self.matches_at(j, modifiers, symbol),
            },
    {
        let mut i: usize = 0;
        while i < self.bindings.len()
            invariant
                i <= self@.len(),
                forall|j: int| 0 <= j < i ==> !self.matches_at(j, modifiers, symbol),
            decreases self@.len() - i,
        {
            if self.bindings[i].modifier_mask == modifiers && self.bindings[i].symbol == symbol {
                proof {
                    assert(self.matches_at(i as int, modifiers, symbol));
                    self.lemma_first_match_found(i as int, modifiers, symbol);
                }
                return Some(i);
            }
            i += 1;
        }
        None
    }

    /// The action of the first binding whose pair equals the input exactly,
    /// or nothing when no binding has that pair. The caller invokes it.
    pub fn match_binding(&self, modifiers: u32, symbol: u32) -> (r: Option<&A>)
        ensures
            match r {
                Some(action) => self.spec_find(modifiers, symbol).is_some() && *action
                    == self@[self.spec_find(modifiers, symbol).unwrap()].action
                    && self.first_match(
                    self.spec_find(modifiers, symbol).unwrap(),
                    modifiers,
                    symbol,
                ),
                None => self.spec_find(modifiers, symbol).is_none() && forall|j: int|
                    !self.matches_at(j, modifiers, symbol),
            },
    {
        match self.find(modifiers, symbol) {
            Some(i) => Some(&self.bindings[i].action),
            None => None,
        }
    }

    /// The requests that make the server deliver the bound keys: first the
    /// release of every earlier key grab, then one grab for each binding
    /// whose symbol resolves under `layout`, in registration order. A binding
    /// whose symbol does not resolve is passed over.
    pub fn grab_requests(&self, layout: &Layout) -> (r: Vec<Request>)
        requires
            layout.wf(),
        ensures
            r@ == seq![Request::UngrabAllKeys] + key_grabs(self@, *layout),
    {
        let mut out: Vec<Request> = Vec::new();
        out.push(Request::UngrabAllKeys);
        let mut i: usize = 0;
        while i < self.bindings.len()
            invariant
                layout.wf(),
                i <= self@.len(),
                out@ =~= seq![Request::UngrabAllKeys] + key_grabs(self@.take(i as int), *layout),
            decreases self@.len() - i,
        {
            let binding = &self.bindings[i];
            let keycode: u8 = layout.keysym_to_keycode(binding.symbol);
            proof {
                let upto = self@.take(i as int + 1);
                assert(upto.drop_last() =~= self@.take(i as int));
                assert(upto.last() == self@[i as int]);
            }
            if keycode != NO_KEYCODE {
                out.push(Request::GrabKey { modifiers: binding.modifier_mask, keycode });
            }
            i += 1;
        }
        proof {
            assert(self@.take(self@.len() as int) =~= self@);
        }
        out
    }

    /// What `spec_find` gives: the first binding with the pair, or nothing
    /// when no binding has it.
    pub proof fn lemma_spec_find(&self, modifiers: u32, symbol: u32)
        ensures
            match self.spec_find(modifiers, symbol) {
                Some(i) => self.first_match(i, modifiers, symbol),
                None => forall|j: int| !self.matches_at(j, modifiers, symbol),
            },
    {
        if exists|i: int| self.matches_at(i, modifiers, symbol) {
            let i = choose|i: int| self.matches_at(i, modifiers, symbol);
            self.lemma_has_first(i, modifiers, symbol);
        }
    }

    /// A first match is what `spec_find` gives.
    pub proof fn lemma_first_match_found(&self, i: int, modifiers: u32, symbol: u32)
        requires
            self.first_match(i, modifiers, symbol),
        ensures
            self.spec_find(modifiers, symbol) == Some(i),
    {
        let chosen = choose|k: int| self.first_match(k, modifiers, symbol);
        assert(self.first_match(chosen, modifiers, symbol));
        if chosen < i {
            assert(!self.matches_at(chosen, modifiers, symbol));
        }
        if i < chosen {
            assert(!self.matches_at(i, modifiers, symbol));
        }
    }

    /// Before any match there is a first one.
    proof fn lemma_has_first(&self, i: int, modifiers: u32, symbol: u32)
        requires
            self.matches_at(i, modifiers, symbol),
        ensures
            exists|k: int| self.first_match(k, modifiers, symbol),
        decreases i,
    {
        if exists|j: int| 0 <= j < i && self.matches_at(j, modifiers, symbol) {
            let j = choose|j: int| 0 <= j < i && self.matches_at(j, modifiers, symbol);
            self.lemma_has_first(j, modifiers, symbol);
        } else {
            assert(self.first_match(i, modifiers, symbol));
        }
    }

    /// Matching on a binding's exact pair gives a binding with that pair,
    /// registered no later than it, and never a binding with another pair.
    pub proof fn lemma_match_own_pair(&self, i: int, other: int)
        requires
            0 <= i < self@.len(),
            0 <= other < self@.len(),
            self@[i].modifier_mask != self@[other].modifier_mask || self@[i].symbol
                != self@[other].symbol,
        ensures
            self.spec_find(self@[i].modifier_mask, self@[i].symbol).is_some(),
            self.spec_find(self@[i].modifier_mask, self@[i].symbol).unwrap() <= i,
            self.spec_find(self@[i].modifier_mask, self@[i].symbol).unwrap() != other,
            self.matches_at(
                self.spec_find(self@[i].modifier_mask, self@[i].symbol).unwrap(),
                self@[i].modifier_mask,
                self@[i].symbol,
            ),
    {
        let modifiers = self@[i].modifier_mask;
        let symbol = self@[i].symbol;
        assert(self.matches_at(i, modifiers, symbol));
        self.lemma_spec_find(modifiers, symbol);
        let k = self.spec_find(modifiers, symbol).unwrap();
        if i < k {
            assert(!self.matches_at(i, modifiers, symbol));
        }
    }

    /// Matching on the exact pair of a binding that is the first with its
    /// pair gives that binding itself.
    pub proof fn lemma_match_first_registered(&self, i: int)
        requires
            0 <= i < self@.len(),
            forall|j: int|
                0 <= j < i ==> !self.matches_at(j, self@[i].modifier_mask, self@[i].symbol),
        ensures
            self.spec_find(self@[i].modifier_mask, self@[i].symbol) == Some(i),
    {
        self.lemma_first_match_found(i, self@[i].modifier_mask, self@[i].symbol);
    }

    /// A pair that no binding has gives nothing, whatever masks contain it
    /// or are contained in it.
    pub proof fn lemma_no_partial_match(&self, modifiers: u32, symbol: u32)
        requires
            forall|i: int|
                0 <= i < self@.len() ==> self@[i].modifier_mask != modifiers || self@[i].symbol
                    != symbol,
        ensures
            self.spec_find(modifiers, symbol).is_none(),
    {
        assert forall|i: int| !self.matches_at(i, modifiers, symbol) by {}
    }
}

/// The grabs of a table hold the grab of every binding whose symbol resolves,
/// whatever the other bindings are.
pub proof fn lemma_grab_isolated<A>(bindings: Seq<KeyBinding<A>>, layout: Layout, i: int)
    requires
        0 <= i < bindings.len(),
        layout.resolvable(bindings[i].symbol),
    ensures
        key_grabs(bindings, layout).contains(grab_of(bindings[i], layout)),
    decreases bindings.len(),
{
    let earlier = key_grabs(bindings.drop_last(), layout);
    if i == bindings.len() - 1 {
        let all = earlier.push(grab_of(bindings.last(), layout));
        assert(all[earlier.len() as int] == grab_of(bindings[i], layout));
    } else {
        lemma_grab_isolated(bindings.drop_last(), layout, i);
        let at = choose|k: int|
            0 <= k < earlier.len() && earlier[k] == grab_of(bindings[i], layout);
        assert(key_grabs(bindings, layout)[at] == grab_of(bindings[i], layout));
    }
}

/// Every grab of a table is the grab of one of its bindings whose symbol
/// resolves: nothing else is grabbed.
pub proof fn lemma_grabs_resolved<A>(bindings: Seq<KeyBinding<A>>, layout: Layout, k: int)
    requires
        0 <= k < key_grabs(bindings, layout).len(),
    ensures
        exists|i: int|
            0 <= i < bindings.len() && layout.resolvable(#[trigger] bindings[i].symbol)
                && key_grabs(bindings, layout)[k] == grab_of(bindings[i], layout),
    decreases bindings.len(),
{
    let earlier = key_grabs(bindings.drop_last(), layout);
    if k < earlier.len() {
        lemma_grabs_resolved(bindings.drop_last(), layout, k);
        let i = choose|i: int|
            0 <= i < bindings.drop_last().len() && layout.resolvable(
                #[trigger] bindings.drop_last()[i].symbol,
            ) && earlier[k] == grab_of(bindings.drop_last()[i], layout);
        assert(bindings[i] == bindings.drop_last()[i]);
        assert(layout.resolvable(bindings[i].symbol));
    } else {
        let i = bindings.len() - 1;
        assert(layout.resolvable(bindings[i].symbol));
    }
}

/// Every grab of a well-formed table names a real keycode under a modifier
/// mask that a key grab accepts.
pub proof fn lemma_grabs_valid<A>(table: &KeyTable<A>, layout: Layout, k: int)
    requires
        table.wf(),
        layout.wf(),
        0 <= k < key_grabs(table@, layout).len(),
    ensures
        key_grabs(table@, layout)[k] matches Request::GrabKey { modifiers, keycode }
            && is_modifier_mask(modifiers) && keycode != NO_KEYCODE,
{
    lemma_grabs_resolved(table@, layout, k);
    let i = choose|i: int|
        0 <= i < table@.len() && layout.resolvable(#[trigger] table@[i].symbol) && key_grabs(
            table@,
            layout,
        )[k] == grab_of(table@[i], layout);
    layout.lemma_keycode_of_resolvable(table@[i].symbol);
    assert(is_modifier_mask(table@[i].modifier_mask));
}

} // verus!
