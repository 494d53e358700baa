//! Labels: every spelling of a program is interned once and travels as a symbol.

use crate::text::owned;
use vstd::prelude::*;

verus! {

/// An interned spelling. Two symbols of one interner are equal exactly when their spellings are.
#[derive(Clone, Copy, PartialEq, Eq, Structural, Debug)]
pub struct Symbol {
    pub id: usize,
}

/// The interner that holds the spelling of every symbol.
pub struct Labels {
    spellings: Vec<String>,
}

impl View for Labels {
    type V = Seq<Seq<char>>;

    closed spec fn view(&self) -> Seq<Seq<char>> {
        crate::text::texts(self.spellings@)
    }
}

impl Labels {
    /// No spelling is held twice.
    pub open spec fn wf(&self) -> bool {
        self@.no_duplicates()
    }

    /// The spelling of `symbol`; a symbol of another interner has the empty spelling.
    pub open spec fn text_of(&self, symbol: Symbol) -> Seq<char> {
        if symbol.id < self@.len() {
            self@[symbol.id as int]
        } else {
            Seq::empty()
        }
    }

    /// The spellings of a run of symbols.
    pub open spec fn texts_of(&self, symbols: Seq<Symbol>) -> Seq<Seq<char>> {
        symbols.map_values(|symbol: Symbol| self.text_of(symbol))
    }

    /// An interner that holds no spelling.
    pub fn new() -> (r: Labels)
        ensures
            r@ == Seq::<Seq<char>>::empty(),
            r.wf(),
    {
        let r = Labels { spellings: Vec::new() };
        assert(r@ =~= Seq::<Seq<char>>::empty());
        r
    }

    /// The spelling of `symbol` as a new string.
    pub fn render(&self, symbol: Symbol) -> (r: String)
        ensures
            r@ == self.text_of(symbol),
    {
        if symbol.id < self.spellings.len() {
            self.spellings[symbol.id].clone()
        } else {
            let r = String::new();
            assert(r@ =~= Seq::<char>::empty());
            r
        }
    }

    /// The spellings of a run of symbols as new strings.
    pub fn render_all(&self, symbols: &Vec<Symbol>) -> (r: Vec<String>)
        ensures
            crate::text::texts(r@) == self.texts_of(symbols@),
    {
        let mut r: Vec<String> = Vec::new();
        let mut i: usize = 0;
        while i < symbols.len()
            invariant
                i <= symbols.len(),
                crate::text::texts(r@) == self.texts_of(symbols@).take(i as int),
            decreases symbols.len() - i,
        {
            let ghost earlier = crate::text::texts(r@);
            r.push(self.render(symbols[i]));
            proof {
                assert(crate::text::texts(r@) =~= earlier.push(self.text_of(symbols@[i as int])));
                assert(self.texts_of(symbols@).take(i as int + 1) =~= self.texts_of(
                    symbols@,
                ).take(i as int).push(self.text_of(symbols@[i as int])));
            }
            i = i + 1;
        }
        proof {
            assert(self.texts_of(symbols@).take(i as int) =~= self.texts_of(symbols@));
        }
        r
    }

    /// The symbol of `text`: the one it already has, or a new one behind all others.
    pub fn intern(&mut self, text: &str) -> (r: Symbol)
        requires
            old(self).wf(),
        ensures
            final(self).wf(),
            final(self).text_of(r) == text@,
            r.id < final(self)@.len(),
            old(self)@.contains(text@) ==> final(self)@ == old(self)@,
            !old(self)@.contains(text@) ==> final(self)@ == old(self)@.push(text@) && r.id
                == old(self)@.len(),
    {
        let mut i: usize = 0;
        let wanted = owned(text);
        while i < self.spellings.len()
            invariant
                i <= self.spellings.len(),
                *self == *old(self),
                self.wf(),
                wanted@ == text@,
                forall|j: int| 0 <= j < i ==> self@[j] != text@,
            decreases self.spellings.len() - i,
        {
            if self.spellings[i] == wanted {
                assert(self@[i as int] == text@);
                return Symbol { id: i };
            }
            assert(self@[i as int] != text@);
            i = i + 1;
        }
        let ghost earlier = self@;
        self.spellings.push(wanted);
        proof {
            assert(self@ =~= earlier.push(text@));
            assert(!earlier.contains(text@));
        }
        Symbol { id: i }
    }
}

/// Interning the same text again gives the same symbol and changes nothing.
pub proof fn interning_is_stable(labels: Labels, a: Symbol, b: Symbol)
    requires
        labels.wf(),
        a.id < labels@.len(),
        b.id < labels@.len(),
    ensures
        a == b <==> labels.text_of(a) == labels.text_of(b),
{
}

} // verus!
