//! The store's laws, stated over the abstract mapping that the store's
//! contracts speak of, and proved once and for all.

use vstd::prelude::*;

verus! {

/// Overwrite: inserting a name twice leaves only the second quantity;
/// the first insert might as well not have happened.
pub proof fn lemma_insert_overwrites(m: Map<Seq<char>, int>, n: Seq<char>, q1: int, q2: int)
    ensures
        m.insert(n, q1).insert(n, q2) == m.insert(n, q2),
{
    assert(m.insert(n, q1).insert(n, q2) =~= m.insert(n, q2));
}

/// Idempotent delete: removing a name that is not present leaves the
/// mapping exactly as it was.
pub proof fn lemma_remove_absent_is_noop(m: Map<Seq<char>, int>, n: Seq<char>)
    requires
        !m.contains_key(n),
    ensures
        m.remove(n) == m,
{
    assert(m.remove(n) =~= m);
}

/// Read your write: after inserting a name, a read sees that name with
/// the quantity just written.
pub proof fn lemma_insert_then_read(m: Map<Seq<char>, int>, n: Seq<char>, q: int)
    ensures
        m.insert(n, q).contains_key(n),
        m.insert(n, q)[n] == q,
{
}

/// The mapping after a run of inserts, applied first to last.
pub open spec fn apply_inserts(m: Map<Seq<char>, int>, ws: Seq<(Seq<char>, int)>) -> Map<
    Seq<char>,
    int,
>
    decreases ws.len(),
{
    if ws.len() == 0 {
        m
    } else {
        apply_inserts(m, ws.drop_last()).insert(ws.last().0, ws.last().1)
    }
}

/// No lost update, for any number of writers: however a lock
/// serializes a set of inserts under pairwise-distinct names, every
/// one of them is present afterwards with the quantity it wrote.
pub proof fn lemma_no_insert_lost(m: Map<Seq<char>, int>, ws: Seq<(Seq<char>, int)>)
    requires
        forall|i: int, j: int|
            0 <= i < j < ws.len() ==> (#[trigger] ws[i]).0 != (#[trigger] ws[j]).0,
    ensures
        forall|i: int|
            0 <= i < ws.len() ==> apply_inserts(m, ws).contains_key((#[trigger] ws[i]).0)
                && apply_inserts(m, ws)[ws[i].0] == ws[i].1,
    decreases ws.len(),
{
    if ws.len() > 0 {
        let d = ws.drop_last();
        lemma_no_insert_lost(m, d);
        assert forall|i: int|
            0 <= i < ws.len() implies apply_inserts(m, ws).contains_key((#[trigger] ws[i]).0)
            && apply_inserts(m, ws)[ws[i].0] == ws[i].1 by {
            if i < ws.len() - 1 {
                assert(d[i] == ws[i]);
                assert(ws[i].0 != ws[ws.len() - 1].0);
            }
        }
    }
}

/// No lost update: two inserts under distinct names commute, and both
/// names come out present with the quantity each insert wrote —
/// whichever serialization order concurrent writers are given.
pub proof fn lemma_distinct_inserts_commute(
    m: Map<Seq<char>, int>,
    n1: Seq<char>,
    q1: int,
    n2: Seq<char>,
    q2: int,
)
    requires
        n1 != n2,
    ensures
        m.insert(n1, q1).insert(n2, q2) == m.insert(n2, q2).insert(n1, q1),
        m.insert(n1, q1).insert(n2, q2).contains_key(n1),
        m.insert(n1, q1).insert(n2, q2)[n1] == q1,
        m.insert(n1, q1).insert(n2, q2).contains_key(n2),
        m.insert(n1, q1).insert(n2, q2)[n2] == q2,
{
    assert(m.insert(n1, q1).insert(n2, q2) =~= m.insert(n2, q2).insert(n1, q1));
}

} // verus!
