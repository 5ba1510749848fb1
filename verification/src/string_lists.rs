//! Lists of strings: their character views, de-duplicated appends, and
//! strictly ordered lists that stand for sets.
use vstd::prelude::*;

use crate::text::{
    chars_less, chars_lt, chars_of, lemma_chars_lt_asymmetric, lemma_chars_lt_irreflexive,
    lemma_chars_lt_total, lemma_chars_lt_transitive,
};

verus! {

/// The characters of each string.
pub open spec fn views(strings: Seq<String>) -> Seq<Seq<char>> {
    strings.map_values(|s: String| s@)
}

/// Appends each value that is not yet in the list, in order.
pub open spec fn spec_extend_unique(list: Seq<Seq<char>>, values: Seq<Seq<char>>) -> Seq<
    Seq<char>,
>
    decreases values.len(),
{
    if values.len() == 0 {
        list
    } else {
        let next = if list.contains(values[0]) {
            list
        } else {
            list.push(values[0])
        };
        spec_extend_unique(next, values.drop_first())
    }
}

/// The list's strings are strictly increasing, so each occurs once.
pub open spec fn strictly_sorted(list: Seq<Seq<char>>) -> bool {
    forall|i: int, j: int| 0 <= i < j < list.len() ==> chars_lt(#[trigger] list[i], #[trigger] list[j])
}

/// Whether `list` holds a string equal to `value`.
pub fn contains_string(list: &[String], value: &String) -> (found: bool)
    ensures
        found == views(list@).contains(value@),
{
    let mut i: usize = 0;
    while i < list.len()
        invariant
            i <= list@.len(),
            forall|j: int| 0 <= j < i ==> list@[j]@ != value@,
        decreases list@.len() - i,
    {
        if list[i] == *value {
            assert(views(list@)[i as int] == value@);
            return true;
        }
        i = i + 1;
    }
    proof {
        if views(list@).contains(value@) {
            let k = choose|k: int| 0 <= k < views(list@).len() && views(list@)[k] == value@;
            assert(list@[k]@ == value@);
        }
    }
    false
}

/// Appends `value` unless the list already holds it.
pub fn push_unique(list: &mut Vec<String>, value: String)
    ensures
        views(final(list)@) == if views(old(list)@).contains(value@) {
            views(old(list)@)
        } else {
            views(old(list)@).push(value@)
        },
{
    if !contains_string(list.as_slice(), &value) {
        list.push(value);
        assert(views(list@) =~= views(old(list)@).push(value@));
    }
}

/// Appends each of `values` that is not yet in `list`, in order.
pub fn extend_unique(list: &mut Vec<String>, values: Vec<String>)
    ensures
        views(final(list)@) == spec_extend_unique(views(old(list)@), views(values@)),
{
    let mut i: usize = 0;
    assert(views(values@).skip(0) =~= views(values@));
    while i < values.len()
        invariant
            i <= values@.len(),
            spec_extend_unique(views(old(list)@), views(values@)) == spec_extend_unique(
                views(list@),
                views(values@).skip(i as int),
            ),
        decreases values@.len() - i,
    {
        let ghost before = views(list@);
        let ghost rest = views(values@).skip(i as int);
        push_unique(list, values[i].clone());
        proof {
            assert(rest[0] == values@[i as int]@);
            assert(rest.drop_first() =~= views(values@).skip(i + 1));
        }
        i = i + 1;
    }
    assert(views(values@).skip(i as int) =~= Seq::<Seq<char>>::empty());
}

/// Inserts `value` into a strictly increasing list, keeping it so; the list
/// then stands for the old set with `value` added.
pub fn insert_sorted(list: &mut Vec<String>, value: String)
    requires
        strictly_sorted(views(old(list)@)),
    ensures
        strictly_sorted(views(final(list)@)),
        views(final(list)@).to_set() == views(old(list)@).to_set().insert(value@),
{
    let ghost old_view = views(list@);
    let key = chars_of(value.as_str());
    let mut i: usize = 0;
    while i < list.len()
        invariant
            i <= list@.len(),
            old_view == views(list@),
            strictly_sorted(old_view),
            key@ == value@,
            forall|j: int| 0 <= j < i ==> chars_lt(#[trigger] old_view[j], value@),
        ensures
            i <= list@.len(),
            forall|j: int| 0 <= j < i ==> chars_lt(#[trigger] old_view[j], value@),
            i < list@.len() ==> !chars_lt(old_view[i as int], value@),
        decreases list@.len() - i,
    {
        let item = chars_of(list[i].as_str());
        assert(old_view[i as int] == list@[i as int]@);
        if !chars_less(item.as_slice(), key.as_slice()) {
            break;
        }
        i = i + 1;
    }
    if i < list.len() && list[i] == value {
        proof {
            assert(old_view[i as int] == value@);
            assert(views(list@).to_set() =~= old_view.to_set().insert(value@));
        }
        return;
    }
    proof {
        if i < list@.len() {
            assert(old_view[i as int] == list@[i as int]@);
            assert(!chars_lt(old_view[i as int], value@));
            lemma_chars_lt_total(old_view[i as int], value@);
        }
        assert forall|j: int| i <= j < old_view.len() implies chars_lt(value@, #[trigger] old_view[j]) by {
            if j > i {
                assert(chars_lt(old_view[i as int], old_view[j]));
                lemma_chars_lt_transitive(value@, old_view[i as int], old_view[j]);
            }
        }
    }
    list.insert(i, value);
    proof {
        let new_view = views(list@);
        assert(new_view =~= old_view.insert(i as int, value@));
        assert forall|a: int, b: int| 0 <= a < b < new_view.len() implies chars_lt(
            #[trigger] new_view[a],
            #[trigger] new_view[b],
        ) by {
            if b < i {
                assert(chars_lt(old_view[a], old_view[b]));
            } else if b == i {
            } else if a < i {
                lemma_chars_lt_transitive(old_view[a], value@, old_view[b - 1]);
            } else if a == i {
            } else {
                assert(chars_lt(old_view[a - 1], old_view[b - 1]));
            }
        }
        assert forall|x: Seq<char>| new_view.to_set().contains(x) <==> old_view.to_set().insert(
            value@,
        ).contains(x) by {
            if old_view.contains(x) {
                let k = choose|k: int| 0 <= k < old_view.len() && old_view[k] == x;
                if k < i {
                    assert(new_view[k] == x);
                } else {
                    assert(new_view[k + 1] == x);
                }
            }
            if x == value@ {
                assert(new_view[i as int] == x);
            }
            if new_view.contains(x) {
                let k = choose|k: int| 0 <= k < new_view.len() && new_view[k] == x;
                if k < i {
                    assert(old_view[k] == x);
                } else if k > i {
                    assert(old_view[k - 1] == x);
                }
            }
        }
        assert(new_view.to_set() =~= old_view.to_set().insert(value@));
    }
}

/// Two strictly increasing lists with the same elements are the same list.
pub proof fn lemma_sorted_lists_equal(a: Seq<Seq<char>>, b: Seq<Seq<char>>)
    requires
        strictly_sorted(a),
        strictly_sorted(b),
        a.to_set() == b.to_set(),
    ensures
        a == b,
    decreases a.len() + b.len(),
{
    if a.len() == 0 {
        if b.len() > 0 {
            assert(b.to_set().contains(b[0]));
            assert(!a.to_set().contains(b[0]));
        }
        assert(a =~= b);
    } else if b.len() == 0 {
        assert(a.to_set().contains(a[0]));
    } else {
        // The smallest elements agree: each list's first element is below all
        // its others, and both lists hold the same elements.
        assert(a.to_set().contains(a[0]));
        assert(b.to_set().contains(b[0]));
        assert(b.contains(a[0]));
        assert(a.contains(b[0]));
        let ia = choose|k: int| 0 <= k < a.len() && a[k] == b[0];
        let ib = choose|k: int| 0 <= k < b.len() && b[k] == a[0];
        if a[0] != b[0] {
            if ia > 0 {
                assert(chars_lt(a[0], a[ia]));
            }
            if ib > 0 {
                assert(chars_lt(b[0], b[ib]));
            }
            lemma_chars_lt_asymmetric(a[0], b[0]);
        }
        let ra = a.drop_first();
        let rb = b.drop_first();
        assert forall|x: Seq<char>| ra.to_set().contains(x) <==> rb.to_set().contains(x) by {
            if ra.contains(x) {
                let k = choose|k: int| 0 <= k < ra.len() && ra[k] == x;
                assert(a[k + 1] == x);
                assert(a.to_set().contains(x));
                let m = choose|m: int| 0 <= m < b.len() && b[m] == x;
                assert(chars_lt(a[0], a[k + 1]));
                if m == 0 {
                    lemma_chars_lt_irreflexive(x);
                }
                assert(rb[m - 1] == x);
            }
            if rb.contains(x) {
                let k = choose|k: int| 0 <= k < rb.len() && rb[k] == x;
                assert(b[k + 1] == x);
                assert(b.to_set().contains(x));
                let m = choose|m: int| 0 <= m < a.len() && a[m] == x;
                assert(chars_lt(b[0], b[k + 1]));
                if m == 0 {
                    lemma_chars_lt_irreflexive(x);
                }
                assert(ra[m - 1] == x);
            }
        }
        assert(ra.to_set() =~= rb.to_set());
        lemma_sorted_lists_equal(ra, rb);
        assert(a =~= seq![a[0]] + ra);
        assert(b =~= seq![b[0]] + rb);
    }
}

} // verus!
