//! Facts about duplicate-free sequences used by the graph and registry proofs.
use vstd::prelude::*;
use vstd::set_lib::*;

verus! {

/// A duplicate-free sequence whose items all occur in another duplicate-free
/// sequence is no longer than it, and of equal length only when it holds all of
/// that sequence's items.
pub proof fn lemma_distinct_subseq_len<A>(s: Seq<A>, t: Seq<A>)
    requires
        s.no_duplicates(),
        t.no_duplicates(),
        forall|i: int| 0 <= i < s.len() ==> t.contains(#[trigger] s[i]),
    ensures
        s.len() <= t.len(),
        s.len() == t.len() ==> forall|x: A| t.contains(x) ==> s.contains(x),
        (forall|x: A| t.contains(x) ==> s.contains(x)) ==> s.len() == t.len(),
{
    broadcast use vstd::seq_lib::seq_to_set_is_finite;

    s.unique_seq_to_set();
    t.unique_seq_to_set();
    assert(s.to_set().subset_of(t.to_set())) by {
        assert forall|x: A| s.to_set().contains(x) implies t.to_set().contains(x) by {
            let i = choose|i: int| 0 <= i < s.len() && s[i] == x;
            assert(t.contains(s[i]));
        }
    }
    lemma_len_subset(s.to_set(), t.to_set());
    if forall|x: A| t.contains(x) ==> s.contains(x) {
        assert(t.to_set().subset_of(s.to_set()));
        lemma_len_subset(t.to_set(), s.to_set());
    }
    if s.len() == t.len() {
        lemma_subset_equality(s.to_set(), t.to_set());
        assert forall|x: A| t.contains(x) implies s.contains(x) by {
            assert(t.to_set().contains(x));
            assert(s.to_set().contains(x));
        }
    }
}

/// Removing one item of a duplicate-free sequence leaves exactly the other items.
pub proof fn lemma_distinct_remove<A>(s: Seq<A>, i: int)
    requires
        s.no_duplicates(),
        0 <= i < s.len(),
    ensures
        s.remove(i).no_duplicates(),
        forall|x: A| s.remove(i).contains(x) <==> (s.contains(x) && x != s[i]),
{
    s.remove_ensures(i);
    let r = s.remove(i);
    assert forall|x: A| r.contains(x) <==> (s.contains(x) && x != s[i]) by {
        if r.contains(x) {
            let k = choose|k: int| 0 <= k < r.len() && r[k] == x;
            if k < i {
                assert(s[k] == x);
            } else {
                assert(s[k + 1] == x);
            }
        }
        if s.contains(x) && x != s[i] {
            let k = choose|k: int| 0 <= k < s.len() && s[k] == x;
            if k < i {
                assert(r[k] == x);
            } else {
                assert(r[k - 1] == x);
            }
        }
    }
    assert forall|a: int, b: int| 0 <= a < b < r.len() implies r[a] != r[b] by {
        let sa = if a < i { a } else { a + 1 };
        let sb = if b < i { b } else { b + 1 };
        assert(r[a] == s[sa]);
        assert(r[b] == s[sb]);
    }
}

/// The items of a sequence with one more item appended.
pub proof fn lemma_push_contains<A>(s: Seq<A>, x: A)
    ensures
        forall|y: A| #[trigger] s.push(x).contains(y) <==> (s.contains(y) || y == x),
{
    let p = s.push(x);
    assert forall|y: A| #[trigger] p.contains(y) <==> (s.contains(y) || y == x) by {
        if p.contains(y) {
            let k = choose|k: int| 0 <= k < p.len() && p[k] == y;
            if k < s.len() {
                assert(s[k] == y);
            }
        }
        if s.contains(y) {
            let k = choose|k: int| 0 <= k < s.len() && s[k] == y;
            assert(p[k] == y);
        }
        if y == x {
            assert(p[s.len() as int] == y);
        }
    }
}

/// In a duplicate-free sequence, an item does not occur before its position.
pub proof fn lemma_distinct_not_in_prefix<A>(s: Seq<A>, i: int)
    requires
        s.no_duplicates(),
        0 <= i < s.len(),
    ensures
        !s.take(i).contains(s[i]),
        s.take(i + 1) == s.take(i).push(s[i]),
{
    assert(s.take(i + 1) =~= s.take(i).push(s[i]));
    if s.take(i).contains(s[i]) {
        let k = choose|k: int| 0 <= k < i && s.take(i)[k] == s[i];
        assert(s[k] == s[i]);
    }
}

/// Appending a new item to a duplicate-free sequence keeps it duplicate-free
/// and adds exactly that item.
pub proof fn lemma_distinct_push<A>(s: Seq<A>, x: A)
    requires
        s.no_duplicates(),
        !s.contains(x),
    ensures
        s.push(x).no_duplicates(),
        forall|y: A| s.push(x).contains(y) <==> (s.contains(y) || y == x),
        s.push(x).to_set() == s.to_set().insert(x),
{
    let p = s.push(x);
    lemma_push_contains(s, x);
    assert forall|a: int, b: int| 0 <= a < b < p.len() implies p[a] != p[b] by {
        if b == s.len() {
            assert(s[a] == p[a]);
        }
    }
    assert(p.to_set() =~= s.to_set().insert(x));
}

} // verus!
