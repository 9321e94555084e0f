//! Interning of identifier names as small integer symbols.
use vstd::prelude::*;

verus! {

/// An interned name: an index into the interner's table.
#[derive(Copy, Clone, PartialEq, Eq, Structural, Debug)]
pub struct Symbol(pub u32);

/// The table of interned names. Each name occurs once; a symbol is its index.
#[derive(Debug)]
pub struct Interner {
    strings: Vec<String>,
}

impl View for Interner {
    type V = Seq<Seq<char>>;

    closed spec fn view(&self) -> Seq<Seq<char>> {
        self.strings@.map_values(|s: String| s@)
    }
}

impl Interner {
    /// No name occurs twice, and every symbol fits in a `u32`.
    pub open spec fn wf(&self) -> bool {
        &&& self@.len() < u32::MAX
        &&& forall|i: int, j: int| 0 <= i < j < self@.len() ==> self@[i] != self@[j]
    }

    pub fn new() -> (r: Interner)
        ensures
            r@ == Seq::<Seq<char>>::empty(),
            r.wf(),
    {
        let r = Interner { strings: Vec::new() };
        assert(r@ =~= Seq::<Seq<char>>::empty());
        r
    }

    /// The symbol of `value`, added to the table if it is not there yet.
    pub fn get_or_insert(&mut self, value: &str) -> (r: Symbol)
        requires
            old(self).wf(),
            old(self)@.contains(value@) || old(self)@.len() + 1 < u32::MAX,
        ensures
            final(self).wf(),
            (r.0 as int) < final(self)@.len(),
            final(self)@[r.0 as int] == value@,
            old(self)@.contains(value@) ==> final(self)@ == old(self)@,
            !old(self)@.contains(value@) ==> final(self)@ == old(self)@.push(value@),
    {
        let owned = value.to_owned();
        let len = self.strings.len();
        let mut i: usize = 0;
        while i < len
            invariant
                len == self.strings@.len(),
                self.wf(),
                owned@ == value@,
                i <= len,
                forall|k: int| 0 <= k < i ==> self@[k] != value@,
            decreases len - i,
        {
            if self.strings[i] == owned {
                assert(self@[i as int] == value@);
                assert(self@.contains(value@));
                return Symbol(i as u32);
            }
            i = i + 1;
        }
        let ghost before = self@;
        self.strings.push(owned);
        proof {
            assert(self@ =~= before.push(value@));
            assert forall|x: Seq<char>| before.contains(x) implies x != value@ by {
                let k = choose|k: int| 0 <= k < before.len() && before[k] == x;
            }
        }
        Symbol(len as u32)
    }

    /// The name of `symbol`, if it is in the table.
    pub fn resolve(&self, symbol: Symbol) -> (r: Option<&str>)
        ensures
            match r {
                Some(name) => (symbol.0 as int) < self@.len() && name@ == self@[symbol.0 as int],
                None => (symbol.0 as int) >= self@.len(),
            },
    {
        let index = symbol.0 as usize;
        if index < self.strings.len() {
            Some(self.strings[index].as_str())
        } else {
            None
        }
    }
}

/// Interning the same name twice gives the same symbol, and resolving a symbol gives
/// back the name it was made from.
pub proof fn law_intern_resolve(before: Seq<Seq<char>>, after: Seq<Seq<char>>, name: Seq<char>, sym: u32)
    requires
        forall|i: int, j: int| 0 <= i < j < before.len() ==> before[i] != before[j],
        before.contains(name) ==> after == before,
        !before.contains(name) ==> after == before.push(name),
        (sym as int) < after.len(),
        after[sym as int] == name,
    ensures
        after.contains(name),
        forall|k: int| 0 <= k < after.len() && after[k] == name ==> k == sym,
{
    assert(after[sym as int] == name);
    assert forall|k: int| 0 <= k < after.len() && after[k] == name implies k == sym by {
        if before.contains(name) {
            if k != sym {
                if k < sym {
                    assert(before[k] != before[sym as int]);
                } else {
                    assert(before[sym as int] != before[k]);
                }
            }
        } else {
            if k < before.len() {
                assert(before.contains(name));
            }
        }
    }
}

impl Default for Interner {
    fn default() -> (r: Interner)
        ensures
            r@ == Seq::<Seq<char>>::empty(),
            r.wf(),
    {
        Interner::new()
    }
}

} // verus!
