//! What holds of every run of the interner, stated over the table model.

use vstd::prelude::*;

use crate::interner::debug_of;
use crate::model::{intern_all, intern_step, lemma_all_keeps, lemma_slot_unique, lemma_step_keeps, slot_of};

verus! {

/// Interning a string again, right away or after any other strings, gives
/// the same symbol and leaves the table as it was.
pub proof fn lemma_intern_idempotent(t: Seq<Seq<char>>, s: Seq<char>, later: Seq<Seq<char>>)
    requires
        t.no_duplicates(),
    ensures
        ({
            let t1 = intern_step(t, s);
            let t2 = intern_all(t1, later);
            &&& intern_step(t1, s) == t1
            &&& intern_step(t2, s) == t2
            &&& slot_of(t2, s) == slot_of(t1, s)
        }),
{
    let t1 = intern_step(t, s);
    lemma_step_keeps(t, s);
    lemma_all_keeps(t1, later);
    let t2 = intern_all(t1, later);
    let i = t1.index_of(s);
    assert(0 <= i < t1.len() && t1[i] == s);
    assert(t2.subrange(0, t1.len() as int)[i] == s);
    assert(t2[i] == s);
    lemma_slot_unique(t2, s, i);
}

/// Different strings, even ones that differ only in case, have different
/// symbols in a table that holds both.
pub proof fn lemma_intern_distinct(t: Seq<Seq<char>>, s1: Seq<char>, s2: Seq<char>)
    requires
        t.no_duplicates(),
        t.contains(s1),
        t.contains(s2),
        s1 != s2,
    ensures
        slot_of(t, s1) != slot_of(t, s2),
{
}

/// Resolving the symbol that interning gives yields the interned string.
pub proof fn lemma_round_trip(t: Seq<Seq<char>>, s: Seq<char>)
    requires
        t.no_duplicates(),
    ensures
        ({
            let t1 = intern_step(t, s);
            &&& 0 <= slot_of(t1, s) < t1.len()
            &&& t1[slot_of(t1, s)] == s
        }),
{
    lemma_step_keeps(t, s);
}

/// The rendering of the symbol that interning gives, plain or `Debug`, is that
/// of the interned string.
pub proof fn lemma_rendering_fidelity(t: Seq<Seq<char>>, s: Seq<char>)
    requires
        t.no_duplicates(),
    ensures
        ({
            let t1 = intern_step(t, s);
            &&& t1[slot_of(t1, s)] == s
            &&& debug_of(t1[slot_of(t1, s)]) == debug_of(s)
        }),
{
    lemma_round_trip(t, s);
}

/// The table never shrinks, keeps every string in its slot, and a table
/// filled from empty holds exactly as many strings as were distinct among
/// those interned.
pub proof fn lemma_monotonic_growth(t: Seq<Seq<char>>, ss: Seq<Seq<char>>)
    requires
        t.no_duplicates(),
    ensures
        t.is_prefix_of(intern_all(t, ss)),
        t.len() <= intern_all(t, ss).len(),
        intern_all(Seq::empty(), ss).len() == ss.to_set().len(),
{
    lemma_all_keeps(t, ss);
    let e = Seq::<Seq<char>>::empty();
    lemma_all_keeps(e, ss);
    let u = intern_all(e, ss);
    assert(u.to_set() =~= ss.to_set());
    u.unique_seq_to_set();
}

} // verus!
