use vstd::prelude::*;

use crate::model::{intern_step, lemma_slot_unique, slot_of};

verus! {

/// Tells whether two strings hold the same characters, by comparing their
/// UTF-8 bytes one by one.
fn same_text(a: &str, b: &str) -> (r: bool)
    ensures
        r == (a@ == b@),
{
    let x = a.as_bytes();
    let y = b.as_bytes();
    if x.len() != y.len() {
        return false;
    }
    let mut i: usize = 0;
    while i < x.len()
        invariant
            x@ == vstd::utf8::encode_utf8(a@),
            y@ == vstd::utf8::encode_utf8(b@),
            x@.len() == y@.len(),
            i <= x@.len(),
            forall|k: int| 0 <= k < i ==> x@[k] == y@[k],
        decreases x@.len() - i,
    {
        if x[i] != y[i] {
            return false;
        }
        i = i + 1;
    }
    proof {
        assert(x@ =~= y@);
        vstd::utf8::encode_utf8_decode_utf8(a@);
        vstd::utf8::encode_utf8_decode_utf8(b@);
    }
    true
}


/// Relies on `Box::leak`: a copy of `string`, never freed, with the same characters.
#[verifier::external_body]
fn leak_copy(string: &str) -> (r: &'static str)
    ensures
        r@ == string@,
{
    Box::leak(string.to_owned().into_boxed_str())
}

/// How `Debug` renders a string with the given characters: quoted, with
/// special characters escaped.
pub uninterp spec fn debug_of(s: Seq<char>) -> Seq<char>;

/// Relies on the `Debug` impl of `str`, through `format!`: its rendering
/// depends on the characters alone.
#[verifier::external_body]
fn debug_text(string: &str) -> (r: String)
    ensures
        r@ == debug_of(string@),
{
    format!("{:?}", string)
}

/// Identifies one interned string of the `Interner` that produced it.
///
/// Symbols compare, order and hash by their slot, the dense position of
/// their string in the table's storage.
#[derive(Clone, Copy, PartialEq, Eq, Structural, Hash, PartialOrd, Ord)]
pub struct Symbol(usize);

impl Symbol {
    /// The slot this symbol stands for.
    pub closed spec fn slot(self) -> int {
        self.0 as int
    }

    /// Symbols are equal exactly when their slots are.
    pub proof fn lemma_eq_slot(a: Symbol, b: Symbol)
        ensures
            (a == b) <==> (a.slot() == b.slot()),
    {
    }

    /// The text of this symbol, as `Display` renders it: the interned string itself.
    pub fn to_string(&self, table: &Interner) -> (r: String)
        requires
            0 <= self.slot() < table@.len(),
        ensures
            r@ == table@[self.slot()],
    {
        table.resolve(*self).to_owned()
    }

    /// The text of this symbol as `Debug` renders it: that of its string.
    pub fn to_debug_string(&self, table: &Interner) -> (r: String)
        requires
            0 <= self.slot() < table@.len(),
        ensures
            r@ == debug_of(table@[self.slot()]),
    {
        debug_text(table.resolve(*self))
    }

    /// Parses `string` into a symbol: the same as interning it, and never an error.
    pub fn from_str(table: &mut Interner, string: &str) -> (r: Result<Symbol, ()>)
        requires
            old(table).wf(),
        ensures
            final(table).wf(),
            final(table)@ == intern_step(old(table)@, string@),
            r is Ok,
            r->Ok_0.slot() == slot_of(final(table)@, string@),
            final(table)@[r->Ok_0.slot()] == string@,
    {
        Ok(table.intern(string))
    }
}

/// A string interner: each distinct string is stored once, in the order in
/// which it was first interned, and is named by its slot.
///
/// Stored strings are never freed: their storage lives as long as the process.
#[derive(Debug)]
pub struct Interner {
    store: Vec<&'static str>,
}

impl View for Interner {
    type V = Seq<Seq<char>>;

    closed spec fn view(&self) -> Seq<Seq<char>> {
        self.store@.map_values(|s: &'static str| s@)
    }
}

impl Default for Interner {
    fn default() -> (r: Interner)
        ensures
            r.wf(),
            r@ == Seq::<Seq<char>>::empty(),
    {
        Interner::new()
    }
}

impl Interner {
    /// The table holds each string at most once.
    pub closed spec fn wf(&self) -> bool {
        self@.no_duplicates()
    }

    /// An empty table.
    pub fn new() -> (r: Interner)
        ensures
            r.wf(),
            r@ == Seq::<Seq<char>>::empty(),
    {
        let r = Interner { store: Vec::new() };
        assert(r@ =~= Seq::<Seq<char>>::empty());
        r
    }

    /// The number of distinct strings interned so far.
    pub fn len(&self) -> (r: usize)
        ensures
            r == self@.len(),
    {
        self.store.len()
    }

    /// Stores `string` in this table if not already there, and returns its symbol.
    ///
    /// A new string gets the next slot; its characters are copied into storage
    /// that is never freed.
    pub fn intern(&mut self, string: &str) -> (r: Symbol)
        requires
            old(self).wf(),
        ensures
            final(self).wf(),
            final(self)@ == intern_step(old(self)@, string@),
            r.slot() == slot_of(final(self)@, string@),
            0 <= r.slot() < final(self)@.len(),
            final(self)@[r.slot()] == string@,
    {
        match self.find(string) {
            Some(i) => {
                proof {
                    lemma_slot_unique(self@, string@, i as int);
                }
                Symbol(i)
            },
            None => {
                let leaked = leak_copy(string);
                self.push_new(leaked)
            },
        }
    }

    /// Stores `string` in this table if not already there, and returns its
    /// symbol; a new string is kept by reference, without a copy.
    pub fn intern_static(&mut self, string: &'static str) -> (r: Symbol)
        requires
            old(self).wf(),
        ensures
            final(self).wf(),
            final(self)@ == intern_step(old(self)@, string@),
            r.slot() == slot_of(final(self)@, string@),
            0 <= r.slot() < final(self)@.len(),
            final(self)@[r.slot()] == string@,
    {
        match self.find(string) {
            Some(i) => {
                proof {
                    lemma_slot_unique(self@, string@, i as int);
                }
                Symbol(i)
            },
            None => self.push_new(string),
        }
    }

    /// Appends a string that the table does not hold yet.
    fn push_new(&mut self, string: &'static str) -> (r: Symbol)
        requires
            old(self).wf(),
            !old(self)@.contains(string@),
        ensures
            final(self).wf(),
            final(self)@ == old(self)@.push(string@),
            r.slot() == old(self)@.len(),
            r.slot() == slot_of(final(self)@, string@),
    {
        let index = self.store.len();
        self.store.push(string);
        assert(self@ =~= old(self)@.push(string@));
        proof {
            lemma_slot_unique(self@, string@, index as int);
        }
        Symbol(index)
    }

    /// The string that `symbol` stands for.
    pub fn resolve(&self, symbol: Symbol) -> (r: &'static str)
        requires
            0 <= symbol.slot() < self@.len(),
        ensures
            r@ == self@[symbol.slot()],
    {
        self.store[symbol.0]
    }

    /// The string that `symbol` stands for, or `None` where this table has no
    /// such slot (a symbol of another table may still land on one).
    pub fn try_resolve(&self, symbol: Symbol) -> (r: Option<&'static str>)
        ensures
            r is Some <==> 0 <= symbol.slot() < self@.len(),
            r is Some ==> r->Some_0@ == self@[symbol.slot()],
    {
        if symbol.0 < self.store.len() {
            Some(self.store[symbol.0])
        } else {
            None
        }
    }

    /// The slot that holds `string`, if any.
    fn find(&self, string: &str) -> (r: Option<usize>)
        ensures
            match r {
                Some(i) => i < self@.len() && self@[i as int] == string@,
                None => !self@.contains(string@),
            },
    {
        let mut i: usize = 0;
        while i < self.store.len()
            invariant
                i <= self@.len(),
                self@.len() == self.store@.len(),
                forall|k: int| 0 <= k < i ==> self@[k] != string@,
            decreases self.store@.len() - i,
        {
            if same_text(self.store[i], string) {
                return Some(i);
            }
            i = i + 1;
        }
        None
    }
}

/// Looks `string` up in `table`, and stores it there if missing.
pub fn intern(table: &mut Interner, string: &str) -> (r: Symbol)
    requires
        old(table).wf(),
    ensures
        final(table).wf(),
        final(table)@ == intern_step(old(table)@, string@),
        r.slot() == slot_of(final(table)@, string@),
        0 <= r.slot() < final(table)@.len(),
        final(table)@[r.slot()] == string@,
{
    table.intern(string)
}

/// Looks static `string` up in `table`, and stores it there without a copy if
/// missing.
pub fn intern_static(table: &mut Interner, string: &'static str) -> (r: Symbol)
    requires
        old(table).wf(),
    ensures
        final(table).wf(),
        final(table)@ == intern_step(old(table)@, string@),
        r.slot() == slot_of(final(table)@, string@),
        0 <= r.slot() < final(table)@.len(),
        final(table)@[r.slot()] == string@,
{
    table.intern_static(string)
}

/// The string that `symbol` stands for in `table`.
pub fn resolve(table: &Interner, symbol: Symbol) -> (r: &'static str)
    requires
        0 <= symbol.slot() < table@.len(),
    ensures
        r@ == table@[symbol.slot()],
{
    table.resolve(symbol)
}

} // verus!
