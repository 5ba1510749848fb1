//! The order in which resolved entities are written to a scene document:
//! entities without an id first, then by increasing id, equal ids in their
//! given order.
use vstd::prelude::*;

use crate::render_order::{draw_order, drawn_before, DrawKey};

verus! {

/// Whether an optional id sorts before another: no id before any id, and
/// ids by value.
pub open spec fn id_before(a: Option<u64>, b: Option<u64>) -> bool {
    match (a, b) {
        (None, Some(_)) => true,
        (Some(x), Some(y)) => x < y,
        _ => false,
    }
}

/// Whether the entity at `i` is written before the one at `j`: by id, and
/// equal ids in their given order.
pub open spec fn written_before(ids: Seq<Option<u64>>, i: int, j: int) -> bool {
    id_before(ids[i], ids[j]) || (ids[i] == ids[j] && i < j)
}

/// Whether `order` lists every index of `ids` once, in writing order.
pub open spec fn is_export_order(ids: Seq<Option<u64>>, order: Seq<usize>) -> bool {
    &&& order.len() == ids.len()
    &&& order.no_duplicates()
    &&& forall|k: int| 0 <= k < order.len() ==> #[trigger] order[k] < ids.len()
    &&& forall|a: int, b: int| 0 <= a < b < order.len() ==> written_before(ids, #[trigger] order[a] as int, #[trigger] order[b] as int)
}

/// An optional id as a sort key: no id first, then the ids by value.
pub open spec fn id_key(id: Option<u64>) -> DrawKey {
    match id {
        None => (0i32, 0i32, 0u64),
        Some(raw) => (1i32, 0i32, raw),
    }
}

/// The indices of entities' ids in the order the entities are written.
pub fn export_order(ids: &Vec<Option<u64>>) -> (order: Vec<usize>)
    ensures
        is_export_order(ids@, order@),
{
    let mut keys: Vec<DrawKey> = Vec::new();
    let mut i: usize = 0;
    while i < ids.len()
        invariant
            i <= ids@.len(),
            keys@.len() == i,
            forall|k: int| 0 <= k < i ==> #[trigger] keys@[k] == id_key(ids@[k]),
        decreases ids@.len() - i,
    {
        let key = match ids[i] {
            None => (0i32, 0i32, 0u64),
            Some(raw) => (1i32, 0i32, raw),
        };
        keys.push(key);
        i = i + 1;
    }
    let order = draw_order(&keys);
    proof {
        assert forall|a: int, b: int| 0 <= a < b < order@.len() implies written_before(ids@, #[trigger] order@[a] as int, #[trigger] order@[b] as int) by {
            let x = order@[a] as int;
            let y = order@[b] as int;
            assert(drawn_before(keys@, x, y));
            assert(keys@[x] == id_key(ids@[x]));
            assert(keys@[y] == id_key(ids@[y]));
        }
    }
    order
}

/// A drawing layer or drawing order as written to a scene document: zero,
/// the default, is left out.
pub fn written_draw_key(value: i32) -> (written: Option<i32>)
    ensures
        written == (if value == 0 {
            None::<i32>
        } else {
            Some(value)
        }),
{
    if value == 0 {
        None
    } else {
        Some(value)
    }
}

/// A list as written to a scene document: an empty one is left out.
pub fn written_list<T>(values: Vec<T>) -> (written: Option<Vec<T>>)
    ensures
        match written {
            None => values@.len() == 0,
            Some(list) => values@.len() > 0 && list@ == values@,
        },
{
    if values.len() == 0 {
        None
    } else {
        Some(values)
    }
}

} // verus!
