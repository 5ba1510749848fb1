//! The order in which the world's sprites and UI elements are drawn: by
//! layer, then sort order, then entity id, and UI elements by z-index, then
//! entity id.
use vstd::prelude::*;

use crate::seq_facts::lemma_distinct_subseq_len;

verus! {

/// A sprite's draw key: its layer, its sort order and its entity's id.
pub type DrawKey = (i32, i32, u64);

/// Whether one draw key comes before another: by layer, then sort order,
/// then entity id.
pub open spec fn key_before(a: DrawKey, b: DrawKey) -> bool {
    a.0 < b.0 || (a.0 == b.0 && (a.1 < b.1 || (a.1 == b.1 && a.2 < b.2)))
}

/// Whether the item at `i` is drawn before the one at `j`: by key, and
/// items with equal keys in their given order.
pub open spec fn drawn_before(keys: Seq<DrawKey>, i: int, j: int) -> bool {
    key_before(keys[i], keys[j]) || (keys[i] == keys[j] && i < j)
}

/// Whether `order` lists every index of `keys` once, in drawing order.
pub open spec fn is_draw_order(keys: Seq<DrawKey>, order: Seq<usize>) -> bool {
    &&& order.len() == keys.len()
    &&& order.no_duplicates()
    &&& forall|k: int| 0 <= k < order.len() ==> #[trigger] order[k] < keys.len()
    &&& forall|a: int, b: int| 0 <= a < b < order.len() ==> drawn_before(keys, #[trigger] order[a] as int, #[trigger] order[b] as int)
}

/// Whether indices are listed in drawing order.
pub open spec fn sorted_for_drawing(keys: Seq<DrawKey>, order: Seq<usize>) -> bool {
    forall|a: int, b: int| 0 <= a < b < order.len() ==> drawn_before(keys, #[trigger] order[a] as int, #[trigger] order[b] as int)
}

/// Two lists of the same indices, each in drawing order, are the same list.
proof fn lemma_sorted_unique(keys: Seq<DrawKey>, a: Seq<usize>, b: Seq<usize>)
    requires
        sorted_for_drawing(keys, a),
        sorted_for_drawing(keys, b),
        forall|x: usize| a.contains(x) <==> b.contains(x),
    ensures
        a == b,
    decreases a.len() + b.len(),
{
    if a.len() == 0 {
        if b.len() > 0 {
            assert(b.contains(b[0]));
        }
        assert(a =~= b);
    } else if b.len() == 0 {
        assert(a.contains(a[0]));
    } else {
        assert(a.contains(a[0]));
        assert(b.contains(b[0]));
        let ia = choose|k: int| 0 <= k < a.len() && a[k] == b[0];
        let ib = choose|k: int| 0 <= k < b.len() && b[k] == a[0];
        if ia > 0 {
            assert(drawn_before(keys, a[0] as int, a[ia] as int));
            if ib > 0 {
                assert(drawn_before(keys, b[0] as int, b[ib] as int));
            }
        }
        assert(a[0] == b[0]);
        let ra = a.drop_first();
        let rb = b.drop_first();
        assert forall|x: usize| ra.contains(x) <==> rb.contains(x) by {
            if ra.contains(x) {
                let k = choose|k: int| 0 <= k < ra.len() && ra[k] == x;
                assert(drawn_before(keys, a[0] as int, a[k + 1] as int));
                assert(b.contains(x));
                let m = choose|m: int| 0 <= m < b.len() && b[m] == x;
                assert(m != 0);
                assert(rb[m - 1] == x);
            }
            if rb.contains(x) {
                let k = choose|k: int| 0 <= k < rb.len() && rb[k] == x;
                assert(drawn_before(keys, b[0] as int, b[k + 1] as int));
                assert(a.contains(x));
                let m = choose|m: int| 0 <= m < a.len() && a[m] == x;
                assert(m != 0);
                assert(ra[m - 1] == x);
            }
        }
        lemma_sorted_unique(keys, ra, rb);
        assert forall|i: int| 0 <= i < a.len() implies a[i] == b[i] by {
            if i > 0 {
                assert(a[i] == ra[i - 1]);
                assert(b[i] == rb[i - 1]);
            }
        }
        assert(a =~= b);
    }
}

/// A draw order lists every index of the keys.
proof fn lemma_draw_order_lists_all(keys: Seq<DrawKey>, order: Seq<usize>)
    requires
        is_draw_order(keys, order),
        keys.len() <= usize::MAX,
    ensures
        forall|x: usize| order.contains(x) <==> x < keys.len(),
{
    let all = Seq::new(keys.len(), |i: int| i as usize);
    assert(all.no_duplicates()) by {
        assert forall|i: int, j: int| 0 <= i < j < all.len() implies all[i] != all[j] by {
            assert(all[i] == i as usize);
            assert(all[j] == j as usize);
        }
    }
    assert forall|k: int| 0 <= k < order.len() implies all.contains(#[trigger] order[k]) by {
        assert(all[order[k] as int] == order[k]);
    }
    lemma_distinct_subseq_len(order, all);
    assert forall|x: usize| order.contains(x) <==> x < keys.len() by {
        if x < keys.len() {
            assert(all[x as int] == x);
            assert(all.contains(x));
        }
        if order.contains(x) {
            let k = choose|k: int| 0 <= k < order.len() && order[k] == x;
            assert(order[k] < keys.len());
        }
    }
}

/// The drawing order of given keys is determined by the keys: any two
/// lists that give every index once in drawing order are the same (for as
/// many keys as indices can count).
pub proof fn lemma_draw_order_unique(keys: Seq<DrawKey>, first: Seq<usize>, second: Seq<usize>)
    requires
        keys.len() <= usize::MAX,
        is_draw_order(keys, first),
        is_draw_order(keys, second),
    ensures
        first == second,
{
    lemma_draw_order_lists_all(keys, first);
    lemma_draw_order_lists_all(keys, second);
    lemma_sorted_unique(keys, first, second);
}

/// Whether the item at `i` is drawn before the one at `j`.
fn comes_before(keys: &Vec<DrawKey>, i: usize, j: usize) -> (before: bool)
    requires
        i < keys@.len(),
        j < keys@.len(),
    ensures
        before == drawn_before(keys@, i as int, j as int),
{
    let a = keys[i];
    let b = keys[j];
    if a.0 != b.0 {
        a.0 < b.0
    } else if a.1 != b.1 {
        a.1 < b.1
    } else if a.2 != b.2 {
        a.2 < b.2
    } else {
        i < j
    }
}

/// The indices of the sprites' draw keys in the order the sprites are
/// drawn: by layer, then sort order, then entity id; equal keys keep their
/// given order.
pub fn draw_order(keys: &Vec<DrawKey>) -> (order: Vec<usize>)
    ensures
        is_draw_order(keys@, order@),
{
    let mut order: Vec<usize> = Vec::new();
    let mut i: usize = 0;
    while i < keys.len()
        invariant
            i <= keys@.len(),
            order@.len() == i,
            order@.no_duplicates(),
            forall|k: int| 0 <= k < order@.len() ==> #[trigger] order@[k] < i,
            forall|a: int, b: int| 0 <= a < b < order@.len() ==> drawn_before(keys@, #[trigger] order@[a] as int, #[trigger] order@[b] as int),
        decreases keys@.len() - i,
    {
        let mut p: usize = 0;
        while p < order.len() && !comes_before(keys, i, order[p])
            invariant
                p <= order@.len(),
                i < keys@.len(),
                order@.len() == i,
                forall|k: int| 0 <= k < order@.len() ==> #[trigger] order@[k] < i,
                forall|q: int| 0 <= q < p ==> drawn_before(keys@, #[trigger] order@[q] as int, i as int),
            decreases order@.len() - p,
        {
            p = p + 1;
        }
        let ghost before = order@;
        assert forall|q: int| p <= q < before.len() implies drawn_before(keys@, i as int, #[trigger] before[q] as int) by {
            assert(drawn_before(keys@, i as int, before[p as int] as int));
            if q > p {
                assert(drawn_before(keys@, before[p as int] as int, before[q] as int));
            }
        }
        order.insert(p, i);
        proof {
            let after = order@;
            assert(after =~= before.insert(p as int, i));
            assert forall|k: int| 0 <= k < after.len() implies #[trigger] after[k] < i + 1 by {
                if k < p {
                    assert(after[k] == before[k]);
                } else if k > p {
                    assert(after[k] == before[k - 1]);
                }
            }
            assert(after.no_duplicates()) by {
                assert forall|a: int, b: int| 0 <= a < b < after.len() implies after[a] != after[b] by {
                    if a == p {
                        assert(after[b] == before[b - 1]);
                    } else if b == p {
                        assert(after[a] == before[a]);
                    } else {
                        let x = if a < p { a } else { a - 1 };
                        let y = if b < p { b } else { b - 1 };
                        assert(after[a] == before[x]);
                        assert(after[b] == before[y]);
                    }
                }
            }
            assert forall|a: int, b: int| 0 <= a < b < after.len() implies drawn_before(keys@, #[trigger] after[a] as int, #[trigger] after[b] as int) by {
                if a == p {
                    assert(after[b] == before[b - 1]);
                } else if b == p {
                    assert(after[a] == before[a]);
                } else {
                    let x = if a < p { a } else { a - 1 };
                    let y = if b < p { b } else { b - 1 };
                    assert(after[a] == before[x]);
                    assert(after[b] == before[y]);
                }
            }
        }
        i = i + 1;
    }
    order
}

/// A UI element's draw key: its z-index and its entity's id, as a sprite
/// key with both in place of layer and entity and a zero sort order.
pub open spec fn ui_draw_key(key: (i32, u64)) -> DrawKey {
    (key.0, 0i32, key.1)
}

/// The UI elements' draw keys as sprite draw keys.
pub open spec fn ui_draw_keys(keys: Seq<(i32, u64)>) -> Seq<DrawKey> {
    keys.map_values(|key: (i32, u64)| ui_draw_key(key))
}

/// The indices of the UI elements' keys in the order they are drawn: by
/// z-index, then entity id; equal keys keep their given order.
pub fn ui_draw_order(keys: &Vec<(i32, u64)>) -> (order: Vec<usize>)
    ensures
        is_draw_order(ui_draw_keys(keys@), order@),
{
    let mut sprite_keys: Vec<DrawKey> = Vec::new();
    let mut i: usize = 0;
    while i < keys.len()
        invariant
            i <= keys@.len(),
            sprite_keys@ == ui_draw_keys(keys@).take(i as int),
        decreases keys@.len() - i,
    {
        let (z_index, entity) = keys[i];
        sprite_keys.push((z_index, 0i32, entity));
        assert(sprite_keys@ =~= ui_draw_keys(keys@).take(i + 1));
        i = i + 1;
    }
    assert(sprite_keys@ =~= ui_draw_keys(keys@));
    draw_order(&sprite_keys)
}

} // verus!
