//! Resolution between hardware keycodes and symbolic keysyms under one
//! keyboard layout (group 0, level 0 of every key).

use vstd::prelude::*;

verus! {

/// The keysym that stands for "no symbol".
pub const NO_SYMBOL: u32 = 0;

/// The keycode that stands for "no mapping".
pub const NO_KEYCODE: u8 = 0;

/// A keyboard layout: the keysym of each keycode in a contiguous range that
/// starts at `first_keycode`. Keycodes outside the range carry no symbol.
pub struct Layout {
    first_keycode: u8,
    symbols: Vec<u32>,
}

impl Layout {
    /// The lowest keycode of the layout.
    pub closed spec fn first(&self) -> int {
        self.first_keycode as int
    }

    /// The keysyms of the layout, by offset from the lowest keycode.
    pub closed spec fn table(&self) -> Seq<u32> {
        self.symbols@
    }

    /// Keycode 0 is never mapped, and every mapped keycode fits in a byte.
    pub open spec fn wf(&self) -> bool {
        1 <= self.first() && self.first() + self.table().len() <= 256
    }

    /// The keysym that the layout gives to `keycode`.
    pub open spec fn symbol_at(&self, keycode: u8) -> u32 {
        let offset = keycode as int - self.first();
        if 0 <= offset < self.table().len() {
            self.table()[offset]
        } else {
            NO_SYMBOL
        }
    }

    /// Whether some keycode of the layout carries `symbol`.
    pub open spec fn resolvable(&self, symbol: u32) -> bool {
        symbol != NO_SYMBOL && exists|k: u8| self.symbol_at(k) == symbol
    }

    /// Whether `keycode` is the lowest keycode that carries `symbol`.
    pub open spec fn lowest_with(&self, keycode: u8, symbol: u32) -> bool {
        self.symbol_at(keycode) == symbol && forall|j: u8|
            j < keycode ==> self.symbol_at(j) != symbol
    }

    /// The keycode that `symbol` resolves to: the lowest one that carries it,
    /// or `NO_KEYCODE`.
    pub open spec fn keycode_of(&self, symbol: u32) -> u8 {
        if self.resolvable(symbol) {
            choose|k: u8| self.lowest_with(k, symbol)
        } else {
            NO_KEYCODE
        }
    }

    /// A layout whose keycodes `first_keycode`, `first_keycode + 1`, ... carry
    /// `symbols` in turn. Fails when keycode 0 would be mapped or the range
    /// leaves the keycode space.
    pub fn new(first_keycode: u8, symbols: Vec<u32>) -> (r: Option<Layout>)
        ensures
            r.is_some() <==> (1 <= first_keycode && first_keycode + symbols@.len() <= 256),
            r matches Some(l) ==> l.wf() && l.first() == first_keycode && l.table()
                == symbols@,
    {
        if first_keycode >= 1 && symbols.len() <= 256 - first_keycode as usize {
            Some(Layout { first_keycode, symbols })
        } else {
            None
        }
    }

    /// The lowest keycode of the layout.
    pub fn first_keycode(&self) -> (r: u8)
        ensures
            r == self.first(),
    {
        self.first_keycode
    }

    /// How many keycodes the layout covers.
    pub fn len(&self) -> (r: usize)
        ensures
            r == self.table().len(),
    {
        self.symbols.len()
    }

    /// Resolves a keysym to the keycode currently mapped to it, or to
    /// `NO_KEYCODE` when the layout does not have the symbol.
    pub fn keysym_to_keycode(&self, symbol: u32) -> (r: u8)
        requires
            self.wf(),
        ensures
            r == self.keycode_of(symbol),
            r == NO_KEYCODE <==> !self.resolvable(symbol),
            r != NO_KEYCODE ==> self.lowest_with(r, symbol),
    {
        if symbol == NO_SYMBOL {
            return NO_KEYCODE;
        }
        let mut i: usize = 0;
        while i < self.symbols.len()
            invariant
                self.wf(),
                symbol != NO_SYMBOL,
                i <= self.symbols@.len(),
                forall|j: int| 0 <= j < i ==> self.symbols@[j] != symbol,
            decreases self.symbols@.len() - i,
        {
            if self.symbols[i] == symbol {
                let code: u8 = (self.first_keycode as usize + i) as u8;
                proof {
                    assert(self.symbol_at(code) == symbol);
                    assert forall|j: u8| j < code implies self.symbol_at(j) != symbol by {
                        let offset = j as int - self.first();
                        if 0 <= offset {
                            assert(self.symbols@[offset] != symbol);
                        }
                    }
                    self.lemma_lowest_is_keycode(code, symbol);
                }
                return code;
            }
            i += 1;
        }
        proof {
            assert forall|k: u8| self.symbol_at(k) != symbol by {
                let offset = k as int - self.first();
                if 0 <= offset < self.table().len() {
                    assert(self.symbols@[offset] != symbol);
                }
            }
        }
        NO_KEYCODE
    }

    /// Resolves a keycode to the keysym that the layout gives it, or to
    /// `NO_SYMBOL` for a keycode that the layout does not map.
    pub fn keycode_to_keysym(&self, keycode: u8) -> (r: u32)
        requires
            self.wf(),
        ensures
            r == self.symbol_at(keycode),
    {
        if keycode >= self.first_keycode && ((keycode - self.first_keycode) as usize)
            < self.symbols.len() {
            self.symbols[(keycode - self.first_keycode) as usize]
        } else {
            NO_SYMBOL
        }
    }

    /// The lowest keycode that carries a symbol is the one it resolves to.
    pub proof fn lemma_lowest_is_keycode(&self, keycode: u8, symbol: u32)
        requires
            symbol != NO_SYMBOL,
            self.lowest_with(keycode, symbol),
        ensures
            self.resolvable(symbol),
            self.keycode_of(symbol) == keycode,
    {
        let chosen = choose|k: u8| self.lowest_with(k, symbol);
        assert(self.lowest_with(chosen, symbol));
        if chosen < keycode {
            assert(self.symbol_at(chosen) != symbol);
        }
        if keycode < chosen {
            assert(self.symbol_at(keycode) != symbol);
        }
    }

    /// A resolvable symbol resolves to the lowest keycode that carries it,
    /// which is never `NO_KEYCODE`.
    pub proof fn lemma_keycode_of_resolvable(&self, symbol: u32)
        requires
            self.wf(),
            self.resolvable(symbol),
        ensures
            self.keycode_of(symbol) != NO_KEYCODE,
            self.lowest_with(self.keycode_of(symbol), symbol),
    {
        let witness = choose|k: u8| self.symbol_at(k) == symbol;
        self.lemma_has_lowest(witness, symbol);
    }

    /// Among the keycodes up to one that carries `symbol`, one is the lowest.
    proof fn lemma_has_lowest(&self, bound: u8, symbol: u32)
        requires
            self.symbol_at(bound) == symbol,
        ensures
            exists|k: u8| self.lowest_with(k, symbol),
        decreases bound,
    {
        if exists|j: u8| j < bound && self.symbol_at(j) == symbol {
            let j = choose|j: u8| j < bound && self.symbol_at(j) == symbol;
            self.lemma_has_lowest(j, symbol);
        } else {
            assert(self.lowest_with(bound, symbol));
        }
    }

    /// Round trip: resolving a resolvable symbol to its keycode and that
    /// keycode back to a symbol gives the symbol again.
    pub proof fn lemma_round_trip(&self, symbol: u32)
        requires
            self.wf(),
            self.resolvable(symbol),
        ensures
            self.keycode_of(symbol) != NO_KEYCODE,
            self.symbol_at(self.keycode_of(symbol)) == symbol,
    {
        self.lemma_keycode_of_resolvable(symbol);
    }
}

} // verus!
