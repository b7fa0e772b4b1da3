use vstd::prelude::*;

verus! {

/// The table that a string enters: `t` if it already holds the string, `t`
/// with the string appended otherwise.
pub open spec fn intern_step(t: Seq<Seq<char>>, s: Seq<char>) -> Seq<Seq<char>> {
    if t.contains(s) {
        t
    } else {
        t.push(s)
    }
}

/// The slot of `s` in `t`; meaningful where `t` holds `s`.
pub open spec fn slot_of(t: Seq<Seq<char>>, s: Seq<char>) -> int {
    t.index_of(s)
}

/// In a table that holds each string once, the slot of a string is where it stands.
pub proof fn lemma_slot_unique(t: Seq<Seq<char>>, s: Seq<char>, i: int)
    requires
        t.no_duplicates(),
        0 <= i < t.len(),
        t[i] == s,
    ensures
        slot_of(t, s) == i,
{
    assert(t.contains(s));
    let j = slot_of(t, s);
    assert(0 <= j < t.len() && t[j] == s);
}

/// The table after interning each string of `ss` in turn, starting from `t`.
pub open spec fn intern_all(t: Seq<Seq<char>>, ss: Seq<Seq<char>>) -> Seq<Seq<char>>
    decreases ss.len(),
{
    if ss.len() == 0 {
        t
    } else {
        intern_step(intern_all(t, ss.drop_last()), ss.last())
    }
}

/// One interning keeps the strings already stored, in their slots, and the
/// table free of duplicates.
pub proof fn lemma_step_keeps(t: Seq<Seq<char>>, s: Seq<char>)
    requires
        t.no_duplicates(),
    ensures
        intern_step(t, s).no_duplicates(),
        t.is_prefix_of(intern_step(t, s)),
        intern_step(t, s).contains(s),
        forall|x: Seq<char>| #[trigger]
            intern_step(t, s).contains(x) <==> (t.contains(x) || x == s),
{
    if t.contains(s) {
        assert(t =~= t.subrange(0, t.len() as int));
    } else {
        let u = t.push(s);
        assert(t =~= u.subrange(0, t.len() as int));
        assert(u[t.len() as int] == s);
        assert forall|x: Seq<char>| #[trigger] u.contains(x) implies (t.contains(x) || x == s) by {
            let i = choose|i: int| 0 <= i < u.len() && u[i] == x;
            if i < t.len() {
                assert(t[i] == x);
            }
        }
        assert forall|x: Seq<char>| t.contains(x) implies #[trigger] u.contains(x) by {
            let i = choose|i: int| 0 <= i < t.len() && t[i] == x;
            assert(u[i] == x);
        }
    }
}

/// Interning a run of strings keeps what [`lemma_step_keeps`] keeps, and the
/// table then holds exactly the strings it held and those of the run.
pub proof fn lemma_all_keeps(t: Seq<Seq<char>>, ss: Seq<Seq<char>>)
    requires
        t.no_duplicates(),
    ensures
        intern_all(t, ss).no_duplicates(),
        t.is_prefix_of(intern_all(t, ss)),
        forall|x: Seq<char>| #[trigger]
            intern_all(t, ss).contains(x) <==> (t.contains(x) || ss.contains(x)),
    decreases ss.len(),
{
    if ss.len() > 0 {
        let rest = ss.drop_last();
        lemma_all_keeps(t, rest);
        let u = intern_all(t, rest);
        lemma_step_keeps(u, ss.last());
        assert forall|x: Seq<char>| ss.contains(x) <==> (rest.contains(x) || x == ss.last()) by {
            if ss.contains(x) {
                let i = choose|i: int| 0 <= i < ss.len() && ss[i] == x;
                if i < rest.len() {
                    assert(rest[i] == x);
                }
            }
            if rest.contains(x) {
                let i = choose|i: int| 0 <= i < rest.len() && rest[i] == x;
                assert(ss[i] == x);
            }
            if x == ss.last() {
                assert(ss[ss.len() - 1] == x);
            }
        }
        let v = intern_step(u, ss.last());
        assert(t =~= v.subrange(0, t.len() as int)) by {
            assert(t =~= u.subrange(0, t.len() as int));
            assert(u =~= v.subrange(0, u.len() as int));
        }
    } else {
        assert(t =~= t.subrange(0, t.len() as int));
    }
}

} // verus!
