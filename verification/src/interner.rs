//! Symbol interning.
//!
//! An [`Interner`] maps equal strings to one canonical small handle, a
//! [`Symbol`], so that names compare by identity.  It owns the canonical
//! string storage, only grows, and is the only way to recover the text of a
//! handle.

use vstd::prelude::*;

use crate::text::str_eq;

verus! {

/// An interned symbol: an index into the interner's table of names.
#[derive(Clone, Copy, Debug, Hash, PartialEq, Eq, Structural)]
pub struct Symbol(pub usize);

/// A symbol interner.
///
/// Its view is the sequence of interned names; a [`Symbol`] is an index
/// into that sequence.
pub struct Interner {
    names: Vec<String>,
}

impl View for Interner {
    type V = Seq<Seq<char>>;

    closed spec fn view(&self) -> Seq<Seq<char>> {
        self.names@.map_values(|s: String| s@)
    }
}

/// Whether the table already holds `s`.
pub open spec fn table_contains(m: Seq<Seq<char>>, s: Seq<char>) -> bool {
    exists|i: int| 0 <= i < m.len() && m[i] == s
}

/// The index of `s` in the table (meaningful only when the table holds `s`;
/// for a well-formed table that index is unique).
pub open spec fn table_index_of(m: Seq<Seq<char>>, s: Seq<char>) -> int {
    choose|i: int| 0 <= i < m.len() && m[i] == s
}

/// A well-formed table holds no name twice.
pub open spec fn table_wf(m: Seq<Seq<char>>) -> bool {
    forall|i: int, j: int| 0 <= i < j < m.len() ==> m[i] != m[j]
}

/// What one interning step does: an already-interned name leaves the table
/// unchanged and returns its index; a new name is appended and its fresh
/// index returned.
pub open spec fn spec_intern(m: Seq<Seq<char>>, s: Seq<char>) -> (Seq<Seq<char>>, int) {
    if table_contains(m, s) {
        (m, table_index_of(m, s))
    } else {
        (m.push(s), m.len() as int)
    }
}

impl Interner {
    /// A well-formed interner holds no name twice.
    pub open spec fn wf(&self) -> bool {
        table_wf(self@)
    }

    /// A new empty interner.
    pub fn new() -> (interner: Interner)
        ensures
            interner@ =~= Seq::<Seq<char>>::empty(),
            interner.wf(),
    {
        Interner { names: Vec::new() }
    }

    /// Interns `string` as a symbol, and returns the interned symbol.
    ///
    /// Interning is idempotent: equal strings always map to the identical
    /// symbol, and distinct strings never collide.
    pub fn intern(&mut self, string: &str) -> (symbol: Symbol)
        requires
            old(self).wf(),
        ensures
            final(self).wf(),
            final(self)@ == spec_intern(old(self)@, string@).0,
            symbol.0 as int == spec_intern(old(self)@, string@).1,
            symbol.0 < final(self)@.len(),
            final(self)@[symbol.0 as int] == string@,
    {
        let n = self.names.len();
        let mut i: usize = 0;
        while i < n
            invariant
                self@ == old(self)@,
                self.wf(),
                n == self.names.len(),
                0 <= i <= n,
                forall|j: int| 0 <= j < i ==> self@[j] != string@,
            decreases n - i,
        {
            assert(self@[i as int] == self.names@[i as int]@);
            if str_eq(self.names[i].as_str(), string) {
                proof {
                    assert(self@[i as int] == string@);
                    assert(table_contains(self@, string@));
                    let w = table_index_of(self@, string@);
                    assert(0 <= w < self@.len() && self@[w] == string@);
                    if w < i as int {
                        assert(self@[w] != string@);
                    } else if w > i as int {
                        assert(self@[i as int] != self@[w]);
                    }
                    assert(w == i as int);
                }
                return Symbol(i);
            }
            i += 1;
        }
        proof {
            assert(!table_contains(self@, string@));
        }
        let ghost old_view = self@;
        self.names.push(string.to_owned());
        proof {
            assert(self@ =~= old_view.push(string@));
        }
        Symbol(n)
    }

    /// The canonical text of `symbol`.
    ///
    /// Defined for every symbol this interner has returned; a foreign
    /// (larger) handle is outside the contract.
    pub fn get(&self, symbol: Symbol) -> (name: &String)
        requires
            symbol.0 < self@.len(),
        ensures
            name@ == self@[symbol.0 as int],
    {
        &self.names[symbol.0]
    }
}

/// Interning the same string twice returns the same symbol and leaves the
/// table as the first call left it.
pub proof fn lemma_intern_idempotent(m: Seq<Seq<char>>, s: Seq<char>)
    requires
        table_wf(m),
    ensures
        spec_intern(spec_intern(m, s).0, s) == spec_intern(m, s),
        table_wf(spec_intern(m, s).0),
{
    let (m1, i1) = spec_intern(m, s);
    assert(0 <= i1 < m1.len() && m1[i1] == s) by {
        if table_contains(m, s) {
        } else {
            assert(m1[m.len() as int] == s);
        }
    }
    assert(table_wf(m1)) by {
        if !table_contains(m, s) {
            assert forall|i: int, j: int| 0 <= i < j < m1.len() implies m1[i] != m1[j] by {
                if j == m.len() as int {
                    assert(m1[i] == m[i]);
                }
            }
        }
    }
    assert(table_contains(m1, s));
    let w = table_index_of(m1, s);
    assert(0 <= w < m1.len() && m1[w] == s);
    assert(w == i1);
}

/// Interning two different strings never collides: the two symbols differ.
pub proof fn lemma_intern_no_collision(m: Seq<Seq<char>>, s1: Seq<char>, s2: Seq<char>)
    requires
        table_wf(m),
        s1 != s2,
    ensures
        spec_intern(spec_intern(m, s1).0, s2).1 != spec_intern(m, s1).1,
{
    let (m1, i1) = spec_intern(m, s1);
    assert(0 <= i1 < m1.len() && m1[i1] == s1) by {
        if table_contains(m, s1) {
        } else {
            assert(m1[m.len() as int] == s1);
        }
    }
    let (m2, i2) = spec_intern(m1, s2);
    if table_contains(m1, s2) {
        assert(m1[table_index_of(m1, s2)] == s2);
    }
}

} // verus!
