//! Scene documents as entity lists keyed by id, the differences between two
//! of them, applying a difference, and a queue of scene reloads.
use vstd::prelude::*;

use crate::seq_facts::lemma_push_contains;
use crate::text::{decimal_string, spec_decimal};
use crate::world::EntityId;

verus! {

/// A scene entity document: its id, if it has one, and the rest of the
/// document in a canonical text form.
#[derive(Debug, Default, PartialEq, Eq)]
pub struct SceneEntity {
    pub id: Option<u64>,
    pub body: String,
}

impl Clone for SceneEntity {
    fn clone(&self) -> (copy: SceneEntity)
        ensures
            copy@ == self@,
    {
        SceneEntity { id: self.id, body: self.body.clone() }
    }
}

/// Whether two entities have the same id and body.
fn same_entity(a: &SceneEntity, b: &SceneEntity) -> (same: bool)
    ensures
        same == (a@ == b@),
{
    let same_id = match (a.id, b.id) {
        (Some(x), Some(y)) => x == y,
        (None, None) => true,
        _ => false,
    };
    same_id && a.body == b.body
}

/// A scene entity as id and body characters.
pub type EntityView = (Option<u64>, Seq<char>);

impl View for SceneEntity {
    type V = EntityView;

    open spec fn view(&self) -> EntityView {
        (self.id, self.body@)
    }
}

/// The entities as views.
pub open spec fn entity_views(entities: Seq<SceneEntity>) -> Seq<EntityView> {
    entities.map_values(|entity: SceneEntity| entity@)
}

/// Which document a diff error is about.
#[derive(Debug, Clone, Copy, PartialEq, Eq, Structural)]
pub enum SceneDiffSide {
    Old,
    New,
    Target,
    Patch,
}

/// Why a diff could not be computed or applied.
#[derive(Debug, Clone, Copy, PartialEq, Eq, Structural)]
pub enum SceneDiffError {
    /// The entity at the index has no id.
    MissingEntityId { side: SceneDiffSide, index: usize },
    /// Two entities share the id.
    DuplicateEntityId { side: SceneDiffSide, id: EntityId },
    /// The change names an entity the target does not have.
    MissingTargetEntity { id: EntityId },
}

/// A diff error with its id as a number.
pub enum SceneDiffErrorView {
    MissingEntityId { side: SceneDiffSide, index: nat },
    DuplicateEntityId { side: SceneDiffSide, id: u64 },
    MissingTargetEntity { id: u64 },
}

impl View for SceneDiffError {
    type V = SceneDiffErrorView;

    open spec fn view(&self) -> SceneDiffErrorView {
        match self {
            SceneDiffError::MissingEntityId { side, index } => SceneDiffErrorView::MissingEntityId {
                side: *side,
                index: *index as nat,
            },
            SceneDiffError::DuplicateEntityId { side, id } => SceneDiffErrorView::DuplicateEntityId {
                side: *side,
                id: id@,
            },
            SceneDiffError::MissingTargetEntity { id } => SceneDiffErrorView::MissingTargetEntity {
                id: id@,
            },
        }
    }
}

/// The entities by id, or the error for the first entity without an id or
/// with an id seen before, reading from `index` on.
pub open spec fn spec_index_from(
    entities: Seq<EntityView>,
    side: SceneDiffSide,
    index: nat,
    found: Map<u64, EntityView>,
) -> Result<Map<u64, EntityView>, SceneDiffErrorView>
    decreases entities.len() - index,
{
    if index >= entities.len() {
        Ok(found)
    } else {
        match entities[index as int].0 {
            None => Err(SceneDiffErrorView::MissingEntityId { side, index }),
            Some(id) => if found.contains_key(id) {
                Err(SceneDiffErrorView::DuplicateEntityId { side, id })
            } else {
                spec_index_from(entities, side, index + 1, found.insert(id, entities[index as int]))
            },
        }
    }
}

/// The entities by id, or the error for the first entity without an id or
/// with a repeated id.
pub open spec fn spec_index(entities: Seq<EntityView>, side: SceneDiffSide) -> Result<
    Map<u64, EntityView>,
    SceneDiffErrorView,
> {
    spec_index_from(entities, side, 0, Map::empty())
}

/// A change between two scenes.
#[derive(Debug, Clone, PartialEq, Eq)]
pub enum SceneChange {
    Added { entity: SceneEntity },
    Removed { id: EntityId },
    Updated { id: EntityId, entity: SceneEntity },
}

/// A change with its entity and id as views.
pub enum SceneChangeView {
    Added { entity: EntityView },
    Removed { id: u64 },
    Updated { id: u64, entity: EntityView },
}

impl View for SceneChange {
    type V = SceneChangeView;

    open spec fn view(&self) -> SceneChangeView {
        match self {
            SceneChange::Added { entity } => SceneChangeView::Added { entity: entity@ },
            SceneChange::Removed { id } => SceneChangeView::Removed { id: id@ },
            SceneChange::Updated { id, entity } => SceneChangeView::Updated { id: id@, entity: entity@ },
        }
    }
}

/// The changes as views.
pub open spec fn change_views(changes: Seq<SceneChange>) -> Seq<SceneChangeView> {
    changes.map_values(|change: SceneChange| change@)
}

/// The target's entities by id after the changes, or the error of the
/// first change that cannot apply.
pub open spec fn spec_apply(target: Map<u64, EntityView>, changes: Seq<SceneChangeView>) -> Result<
    Map<u64, EntityView>,
    SceneDiffErrorView,
>
    decreases changes.len(),
{
    if changes.len() == 0 {
        Ok(target)
    } else {
        let step: Result<Map<u64, EntityView>, SceneDiffErrorView> = match changes[0] {
            SceneChangeView::Added { entity } => match entity.0 {
                None => Err(SceneDiffErrorView::MissingEntityId { side: SceneDiffSide::Patch, index: 0 }),
                Some(id) => if target.contains_key(id) {
                    Err(SceneDiffErrorView::DuplicateEntityId { side: SceneDiffSide::Target, id })
                } else {
                    Ok(target.insert(id, entity))
                },
            },
            SceneChangeView::Removed { id } => if target.contains_key(id) {
                Ok(target.remove(id))
            } else {
                Err(SceneDiffErrorView::MissingTargetEntity { id })
            },
            SceneChangeView::Updated { id, entity } => if target.contains_key(id) {
                Ok(target.insert(id, entity))
            } else {
                Err(SceneDiffErrorView::MissingTargetEntity { id })
            },
        };
        match step {
            Err(error) => Err(error),
            Ok(next) => spec_apply(next, changes.drop_first()),
        }
    }
}

/// Entities listed by increasing key, each stored under its own id.
pub open spec fn sorted_entries(entries: Seq<(u64, SceneEntity)>) -> bool {
    &&& forall|i: int, j: int| 0 <= i < j < entries.len() ==> (#[trigger] entries[i]).0 < (#[trigger] entries[j]).0
    &&& forall|i: int| 0 <= i < entries.len() ==> (#[trigger] entries[i]).1@.0 == Some(entries[i].0)
}

/// The entries as a map by key.
pub open spec fn entries_map(entries: Seq<(u64, SceneEntity)>) -> Map<u64, EntityView> {
    Map::new(
        |id: u64| exists|i: int| 0 <= i < entries.len() && #[trigger] entries[i].0 == id,
        |id: u64| entries[choose|i: int| 0 <= i < entries.len() && #[trigger] entries[i].0 == id].1@,
    )
}

proof fn lemma_entries_map_at(entries: Seq<(u64, SceneEntity)>, i: int)
    requires
        sorted_entries(entries),
        0 <= i < entries.len(),
    ensures
        entries_map(entries).contains_key(entries[i].0),
        entries_map(entries)[entries[i].0] == entries[i].1@,
{
    let id = entries[i].0;
    let j = choose|j: int| 0 <= j < entries.len() && #[trigger] entries[j].0 == id;
    if j < i {
        assert(entries[j].0 < entries[i].0);
    } else if j > i {
        assert(entries[i].0 < entries[j].0);
    }
}

/// The position of `id` among sorted entries, or where it would go.
fn entry_position(entries: &Vec<(u64, SceneEntity)>, id: u64) -> (index: usize)
    ensures
        index <= entries@.len(),
        forall|j: int| 0 <= j < index ==> (#[trigger] entries@[j]).0 < id,
        index < entries@.len() ==> entries@[index as int].0 >= id,
{
    let mut i: usize = 0;
    while i < entries.len()
        invariant
            i <= entries@.len(),
            forall|j: int| 0 <= j < i ==> (#[trigger] entries@[j]).0 < id,
        decreases entries@.len() - i,
    {
        if entries[i].0 >= id {
            return i;
        }
        i = i + 1;
    }
    i
}

/// Whether sorted entries hold `id`, and where.
fn find_entry(entries: &Vec<(u64, SceneEntity)>, id: u64) -> (found: Option<usize>)
    requires
        sorted_entries(entries@),
    ensures
        match found {
            Some(i) => i < entries@.len() && entries@[i as int].0 == id && entries_map(entries@).contains_key(id),
            None => !entries_map(entries@).contains_key(id),
        },
{
    let i = entry_position(entries, id);
    if i < entries.len() && entries[i].0 == id {
        proof {
            lemma_entries_map_at(entries@, i as int);
        }
        return Some(i);
    }
    proof {
        if entries_map(entries@).contains_key(id) {
            let j = choose|j: int| 0 <= j < entries@.len() && #[trigger] entries@[j].0 == id;
            if j > i {
                assert(entries@[i as int].0 < entries@[j].0);
            }
        }
    }
    None
}

/// Stores an entity under a new key, keeping the entries sorted.
fn insert_entry(entries: &mut Vec<(u64, SceneEntity)>, id: u64, entity: SceneEntity)
    requires
        sorted_entries(old(entries)@),
        !entries_map(old(entries)@).contains_key(id),
        entity@.0 == Some(id),
    ensures
        sorted_entries(final(entries)@),
        entries_map(final(entries)@) == entries_map(old(entries)@).insert(id, entity@),
{
    let ghost before = entries@;
    let i = entry_position(entries, id);
    proof {
        if i < before.len() && before[i as int].0 == id {
            assert(entries_map(before).contains_key(id));
        }
    }
    let ghost view = entity@;
    entries.insert(i, (id, entity));
    proof {
        let after = entries@;
        assert forall|a: int, b: int| 0 <= a < b < after.len() implies (#[trigger] after[a]).0 < (#[trigger] after[b]).0 by {
            if b < i {
                assert(before[a].0 < before[b].0);
            } else if b == i {
            } else if a < i {
                if b - 1 > i {
                    assert(before[i as int].0 < before[b - 1].0);
                }
            } else if a == i {
                if b - 1 > i {
                    assert(before[i as int].0 < before[b - 1].0);
                }
            } else {
                assert(before[a - 1].0 < before[b - 1].0);
            }
        }
        let m = entries_map(before).insert(id, view);
        assert forall|k: u64| #[trigger] entries_map(after).contains_key(k) <==> m.contains_key(k) by {
            if entries_map(before).contains_key(k) {
                let j = choose|j: int| 0 <= j < before.len() && #[trigger] before[j].0 == k;
                if j < i {
                    assert(after[j].0 == k);
                } else {
                    assert(after[j + 1].0 == k);
                }
            }
            if k == id {
                assert(after[i as int].0 == k);
            }
            if entries_map(after).contains_key(k) {
                let j = choose|j: int| 0 <= j < after.len() && #[trigger] after[j].0 == k;
                if j < i {
                    assert(before[j].0 == k);
                } else if j > i {
                    assert(before[j - 1].0 == k);
                }
            }
        }
        assert forall|k: u64| #[trigger] entries_map(after).contains_key(k) implies entries_map(after)[k] == m[k] by {
            let j = choose|j: int| 0 <= j < after.len() && #[trigger] after[j].0 == k;
            lemma_entries_map_at(after, j);
            if j < i {
                assert(after[j] == before[j]);
                lemma_entries_map_at(before, j);
            } else if j > i {
                assert(after[j] == before[j - 1]);
                assert(k != id);
                lemma_entries_map_at(before, j - 1);
            }
        }
        assert(entries_map(after) =~= m);
    }
}

/// Replaces the entity stored under an existing key.
fn replace_entry(entries: &mut Vec<(u64, SceneEntity)>, index: usize, entity: SceneEntity)
    requires
        sorted_entries(old(entries)@),
        index < old(entries)@.len(),
        entity@.0 == Some(old(entries)@[index as int].0),
    ensures
        sorted_entries(final(entries)@),
        entries_map(final(entries)@) == entries_map(old(entries)@).insert(old(entries)@[index as int].0, entity@),
{
    let ghost before = entries@;
    let id = entries[index].0;
    let ghost view = entity@;
    entries.set(index, (id, entity));
    proof {
        let after = entries@;
        assert forall|a: int, b: int| 0 <= a < b < after.len() implies (#[trigger] after[a]).0 < (#[trigger] after[b]).0 by {
            assert(before[a].0 < before[b].0);
        }
        let m = entries_map(before).insert(id, view);
        assert forall|k: u64| #[trigger] entries_map(after).contains_key(k) <==> m.contains_key(k) by {
            if entries_map(before).contains_key(k) {
                let j = choose|j: int| 0 <= j < before.len() && #[trigger] before[j].0 == k;
                assert(after[j].0 == k);
            }
            if k == id {
                assert(after[index as int].0 == k);
            }
            if entries_map(after).contains_key(k) {
                let j = choose|j: int| 0 <= j < after.len() && #[trigger] after[j].0 == k;
                assert(before[j].0 == k);
            }
        }
        assert forall|k: u64| #[trigger] entries_map(after).contains_key(k) implies entries_map(after)[k] == m[k] by {
            let j = choose|j: int| 0 <= j < after.len() && #[trigger] after[j].0 == k;
            lemma_entries_map_at(after, j);
            if j != index {
                lemma_entries_map_at(before, j);
            }
        }
        assert(entries_map(after) =~= m);
    }
}

/// Removes the entry at the index.
fn remove_entry(entries: &mut Vec<(u64, SceneEntity)>, index: usize)
    requires
        sorted_entries(old(entries)@),
        index < old(entries)@.len(),
    ensures
        sorted_entries(final(entries)@),
        entries_map(final(entries)@) == entries_map(old(entries)@).remove(old(entries)@[index as int].0),
{
    let ghost before = entries@;
    let id = entries[index].0;
    entries.remove(index);
    proof {
        let after = entries@;
        let i = index as int;
        assert forall|a: int, b: int| 0 <= a < b < after.len() implies (#[trigger] after[a]).0 < (#[trigger] after[b]).0 by {
            if b < i {
                assert(before[a].0 < before[b].0);
            } else if a < i {
                assert(before[a].0 < before[b + 1].0);
            } else {
                assert(before[a + 1].0 < before[b + 1].0);
            }
        }
        let m = entries_map(before).remove(id);
        assert forall|k: u64| #[trigger] entries_map(after).contains_key(k) <==> m.contains_key(k) by {
            if entries_map(before).contains_key(k) && k != id {
                let j = choose|j: int| 0 <= j < before.len() && #[trigger] before[j].0 == k;
                if j < i {
                    assert(after[j].0 == k);
                } else {
                    assert(j != i);
                    assert(after[j - 1].0 == k);
                }
            }
            if entries_map(after).contains_key(k) {
                let j = choose|j: int| 0 <= j < after.len() && #[trigger] after[j].0 == k;
                if j < i {
                    assert(before[j].0 == k);
                    assert(before[j].0 < before[i].0);
                } else {
                    assert(before[j + 1].0 == k);
                    assert(before[i].0 < before[j + 1].0);
                }
            }
        }
        assert forall|k: u64| #[trigger] entries_map(after).contains_key(k) implies entries_map(after)[k] == m[k] by {
            let j = choose|j: int| 0 <= j < after.len() && #[trigger] after[j].0 == k;
            lemma_entries_map_at(after, j);
            if j < i {
                lemma_entries_map_at(before, j);
            } else {
                lemma_entries_map_at(before, j + 1);
            }
        }
        assert(entries_map(after) =~= m);
    }
}

/// Indexes the entities by id, in increasing id order.
fn index_entities(entities: &Vec<SceneEntity>, side: SceneDiffSide) -> (result: Result<
    Vec<(u64, SceneEntity)>,
    SceneDiffError,
>)
    ensures
        match spec_index(entity_views(entities@), side) {
            Ok(map) => result matches Ok(entries) && sorted_entries(entries@) && entries_map(entries@) == map,
            Err(error) => result matches Err(e) && e@ == error,
        },
{
    let ghost views = entity_views(entities@);
    let mut entries: Vec<(u64, SceneEntity)> = Vec::new();
    let mut i: usize = 0;
    assert(entries_map(entries@) =~= Map::<u64, EntityView>::empty());
    while i < entities.len()
        invariant
            i <= entities@.len(),
            views == entity_views(entities@),
            sorted_entries(entries@),
            spec_index(views, side) == spec_index_from(views, side, i as nat, entries_map(entries@)),
        decreases entities@.len() - i,
    {
        let id = match entities[i].id {
            Some(id) => id,
            None => {
                return Err(SceneDiffError::MissingEntityId { side, index: i });
            },
        };
        match find_entry(&entries, id) {
            Some(_) => {
                return Err(SceneDiffError::DuplicateEntityId { side, id: EntityId::new(id) });
            },
            None => {},
        }
        let entity = entities[i].clone();
        assert(entity@ == views[i as int]);
        insert_entry(&mut entries, id, entity);
        i = i + 1;
    }
    Ok(entries)
}


/// The id an entity is listed under: its id, or zero for one without.
pub open spec fn entity_key(entity: EntityView) -> u64 {
    match entity.0 {
        Some(id) => id,
        None => 0,
    }
}

/// The id a change is about.
pub open spec fn change_id(change: SceneChangeView) -> u64 {
    match change {
        SceneChangeView::Added { entity } => entity_key(entity),
        SceneChangeView::Removed { id } => id,
        SceneChangeView::Updated { id, .. } => id,
    }
}

/// Whether every entity is stored under its own id.
pub open spec fn keys_match(entities: Map<u64, EntityView>) -> bool {
    forall|id: u64| #[trigger] entities.contains_key(id) ==> entities[id].0 == Some(id)
}

/// The change owed for an id between two scenes: removed when only the old
/// scene has it, added when only the new one has it, updated when both have
/// it and the entities differ, and none otherwise.
pub open spec fn expected_change(id: u64, old: Map<u64, EntityView>, new: Map<u64, EntityView>) -> Option<
    SceneChangeView,
> {
    if old.contains_key(id) && !new.contains_key(id) {
        Some(SceneChangeView::Removed { id })
    } else if !old.contains_key(id) && new.contains_key(id) {
        Some(SceneChangeView::Added { entity: new[id] })
    } else if old.contains_key(id) && new.contains_key(id) && old[id] != new[id] {
        Some(SceneChangeView::Updated { id, entity: new[id] })
    } else {
        None
    }
}

/// The ids of the changes, in order.
pub open spec fn change_ids(changes: Seq<SceneChangeView>) -> Seq<u64> {
    changes.map_values(|change: SceneChangeView| change_id(change))
}

/// Whether the values are strictly increasing.
pub open spec fn increasing(values: Seq<u64>) -> bool {
    forall|i: int, j: int| 0 <= i < j < values.len() ==> #[trigger] values[i] < #[trigger] values[j]
}

/// Whether the changes are exactly those owed between `old` and `new`, one
/// per id, in increasing id order.
pub open spec fn is_diff(changes: Seq<SceneChangeView>, old: Map<u64, EntityView>, new: Map<u64, EntityView>) -> bool {
    &&& increasing(change_ids(changes))
    &&& forall|i: int| 0 <= i < changes.len() ==> expected_change(change_id(#[trigger] changes[i]), old, new) == Some(changes[i])
    &&& forall|id: u64| #[trigger] expected_change(id, old, new) is Some ==> change_ids(changes).contains(id)
}

/// The changes between the scenes whose entities by id are `old` and `new`.
pub open spec fn spec_diff(old: Map<u64, EntityView>, new: Map<u64, EntityView>) -> Seq<SceneChangeView> {
    choose|changes: Seq<SceneChangeView>| is_diff(changes, old, new)
}

/// Two strictly increasing sequences with the same values are equal.
pub proof fn lemma_increasing_unique(a: Seq<u64>, b: Seq<u64>)
    requires
        increasing(a),
        increasing(b),
        forall|x: u64| a.contains(x) <==> b.contains(x),
    ensures
        a == b,
    decreases a.len() + b.len(),
{
    if a.len() == 0 {
        if b.len() > 0 {
            assert(b.contains(b[0]));
        }
        assert(a =~= b);
    } else if b.len() == 0 {
        assert(a.contains(a[0]));
    } else {
        assert(a.contains(a[0]));
        assert(b.contains(b[0]));
        let ia = choose|k: int| 0 <= k < a.len() && a[k] == b[0];
        let ib = choose|k: int| 0 <= k < b.len() && b[k] == a[0];
        if ia > 0 {
            assert(a[0] < a[ia]);
        }
        if ib > 0 {
            assert(b[0] < b[ib]);
        }
        let ra = a.drop_first();
        let rb = b.drop_first();
        assert forall|x: u64| ra.contains(x) <==> rb.contains(x) by {
            if ra.contains(x) {
                let k = choose|k: int| 0 <= k < ra.len() && ra[k] == x;
                assert(a[0] < a[k + 1]);
                assert(b.contains(x));
                let m = choose|m: int| 0 <= m < b.len() && b[m] == x;
                assert(m != 0);
                assert(rb[m - 1] == x);
            }
            if rb.contains(x) {
                let k = choose|k: int| 0 <= k < rb.len() && rb[k] == x;
                assert(b[0] < b[k + 1]);
                assert(a.contains(x));
                let m = choose|m: int| 0 <= m < a.len() && a[m] == x;
                assert(m != 0);
                assert(ra[m - 1] == x);
            }
        }
        lemma_increasing_unique(ra, rb);
        assert(a[0] == b[0]);
        assert forall|i: int| 0 <= i < a.len() implies a[i] == b[i] by {
            if i > 0 {
                assert(a[i] == ra[i - 1]);
                assert(b[i] == rb[i - 1]);
            }
        }
        assert(a =~= b);
    }
}

/// At most one change sequence is the diff of two scenes.
pub proof fn lemma_diff_unique(
    a: Seq<SceneChangeView>,
    b: Seq<SceneChangeView>,
    old: Map<u64, EntityView>,
    new: Map<u64, EntityView>,
)
    requires
        is_diff(a, old, new),
        is_diff(b, old, new),
    ensures
        a == b,
{
    let ia = change_ids(a);
    let ib = change_ids(b);
    assert forall|x: u64| ia.contains(x) <==> ib.contains(x) by {
        if ia.contains(x) {
            let k = choose|k: int| 0 <= k < ia.len() && ia[k] == x;
            assert(expected_change(change_id(a[k]), old, new) == Some(a[k]));
        }
        if ib.contains(x) {
            let k = choose|k: int| 0 <= k < ib.len() && ib[k] == x;
            assert(expected_change(change_id(b[k]), old, new) == Some(b[k]));
        }
    }
    lemma_increasing_unique(ia, ib);
    assert forall|i: int| 0 <= i < a.len() implies a[i] == b[i] by {
        assert(ia[i] == ib[i]);
        assert(expected_change(change_id(a[i]), old, new) == Some(a[i]));
        assert(expected_change(change_id(b[i]), old, new) == Some(b[i]));
    }
    assert(a =~= b);
}

/// A diff exists for any two scenes' entities by id.
pub proof fn lemma_diff_is_diff(changes: Seq<SceneChangeView>, old: Map<u64, EntityView>, new: Map<u64, EntityView>)
    requires
        is_diff(changes, old, new),
    ensures
        spec_diff(old, new) == changes,
{
    lemma_diff_unique(spec_diff(old, new), changes, old, new);
}

/// The ids the entities are listed under, in order.
pub open spec fn entity_keys(views: Seq<EntityView>) -> Seq<u64> {
    views.map_values(|entity: EntityView| entity_key(entity))
}

/// Whether `views` lists the entities by increasing id, each once, each
/// with its own id.
pub open spec fn lists_by_id(views: Seq<EntityView>, entities: Map<u64, EntityView>) -> bool {
    &&& increasing(entity_keys(views))
    &&& forall|i: int|
        0 <= i < views.len() ==> (#[trigger] views[i]).0 is Some && entities.contains_key(entity_key(views[i]))
            && entities[entity_key(views[i])] == views[i]
    &&& forall|id: u64| #[trigger] entities.contains_key(id) ==> entity_keys(views).contains(id)
}

/// The entities listed by increasing id.
pub open spec fn spec_listing(entities: Map<u64, EntityView>) -> Seq<EntityView> {
    choose|views: Seq<EntityView>| lists_by_id(views, entities)
}

/// Entities have at most one listing by id.
pub proof fn lemma_listing_unique(a: Seq<EntityView>, b: Seq<EntityView>, entities: Map<u64, EntityView>)
    requires
        lists_by_id(a, entities),
        lists_by_id(b, entities),
    ensures
        a == b,
{
    let ka = entity_keys(a);
    let kb = entity_keys(b);
    assert forall|x: u64| ka.contains(x) <==> kb.contains(x) by {
        if ka.contains(x) {
            let k = choose|k: int| 0 <= k < ka.len() && ka[k] == x;
            assert(entities.contains_key(entity_key(a[k])));
        }
        if kb.contains(x) {
            let k = choose|k: int| 0 <= k < kb.len() && kb[k] == x;
            assert(entities.contains_key(entity_key(b[k])));
        }
    }
    lemma_increasing_unique(ka, kb);
    assert forall|i: int| 0 <= i < a.len() implies a[i] == b[i] by {
        assert(ka[i] == kb[i]);
        assert(entities[entity_key(a[i])] == a[i]);
        assert(entities[entity_key(b[i])] == b[i]);
    }
    assert(a =~= b);
}

/// A listing by id is the listing of its entities.
pub proof fn lemma_listing_is(views: Seq<EntityView>, entities: Map<u64, EntityView>)
    requires
        lists_by_id(views, entities),
    ensures
        spec_listing(entities) == views,
{
    lemma_listing_unique(spec_listing(entities), views, entities);
}

/// The entities of sorted entries, in order.
pub open spec fn entry_views(entries: Seq<(u64, SceneEntity)>) -> Seq<EntityView> {
    entries.map_values(|entry: (u64, SceneEntity)| entry.1@)
}

proof fn lemma_entries_listing(entries: Seq<(u64, SceneEntity)>)
    requires
        sorted_entries(entries),
    ensures
        lists_by_id(entry_views(entries), entries_map(entries)),
{
    let views = entry_views(entries);
    let m = entries_map(entries);
    assert forall|i: int| 0 <= i < views.len() implies #[trigger] entity_keys(views)[i] == entries[i].0 by {
        assert(views[i] == entries[i].1@);
    }
    assert forall|i: int, j: int| 0 <= i < j < views.len() implies #[trigger] entity_keys(views)[i]
        < #[trigger] entity_keys(views)[j] by {
        assert(entity_keys(views)[i] == entries[i].0);
        assert(entity_keys(views)[j] == entries[j].0);
    }
    assert forall|i: int| 0 <= i < views.len() implies (#[trigger] views[i]).0 is Some && m.contains_key(
        entity_key(views[i]),
    ) && m[entity_key(views[i])] == views[i] by {
        assert(views[i] == entries[i].1@);
        lemma_entries_map_at(entries, i);
    }
    assert forall|id: u64| #[trigger] m.contains_key(id) implies entity_keys(views).contains(id) by {
        let j = choose|j: int| 0 <= j < entries.len() && #[trigger] entries[j].0 == id;
        assert(entity_keys(views)[j] == id);
    }
}

/// The entities of sorted entries, in order.
fn entries_values(entries: &Vec<(u64, SceneEntity)>) -> (values: Vec<SceneEntity>)
    ensures
        entity_views(values@) == entry_views(entries@),
{
    let mut values: Vec<SceneEntity> = Vec::new();
    let mut i: usize = 0;
    while i < entries.len()
        invariant
            i <= entries@.len(),
            entity_views(values@) == entry_views(entries@).take(i as int),
        decreases entries@.len() - i,
    {
        let ghost before = values@;
        let entity = entries[i].1.clone();
        assert(entity@ == entry_views(entries@)[i as int]);
        values.push(entity);
        assert(entity_views(values@) =~= entity_views(before).push(entity@));
        assert(entity_views(values@) =~= entry_views(entries@).take(i + 1));
        i = i + 1;
    }
    assert(entry_views(entries@).take(i as int) =~= entry_views(entries@));
    values
}

/// A scene document: its entities, in order.
#[derive(Debug, Default, PartialEq, Eq)]
pub struct SceneDocument {
    pub entities: Vec<SceneEntity>,
}

impl Clone for SceneDocument {
    fn clone(&self) -> (copy: SceneDocument)
        ensures
            copy@ == self@,
    {
        let mut entities: Vec<SceneEntity> = Vec::new();
        let mut i: usize = 0;
        while i < self.entities.len()
            invariant
                i <= self.entities@.len(),
                entity_views(entities@) == entity_views(self.entities@).take(i as int),
            decreases self.entities@.len() - i,
        {
            let ghost before = entities@;
            let entity = self.entities[i].clone();
            entities.push(entity);
            assert(entity_views(entities@) =~= entity_views(before).push(entity@));
            assert(entity_views(entities@) =~= entity_views(self.entities@).take(i + 1));
            i = i + 1;
        }
        assert(entity_views(self.entities@).take(i as int) =~= entity_views(self.entities@));
        SceneDocument { entities }
    }
}

impl View for SceneDocument {
    type V = Seq<EntityView>;

    open spec fn view(&self) -> Seq<EntityView> {
        entity_views(self.entities@)
    }
}

/// Whether a change is well formed: an added entity has an id, and an
/// updated entity has the id of its change.
pub open spec fn well_formed_change(change: SceneChangeView) -> bool {
    match change {
        SceneChangeView::Added { entity } => entity.0 is Some,
        SceneChangeView::Removed { .. } => true,
        SceneChangeView::Updated { id, entity } => entity.0 == Some(id),
    }
}

/// The changes between two scene documents, in increasing id order.
#[derive(Debug, PartialEq, Eq)]
pub struct SceneDiff {
    changes: Vec<SceneChange>,
}

impl View for SceneDiff {
    type V = Seq<SceneChangeView>;

    closed spec fn view(&self) -> Seq<SceneChangeView> {
        change_views(self.changes@)
    }
}

impl SceneDiff {
    #[verifier::type_invariant]
    spec fn well_formed(self) -> bool {
        &&& increasing(change_ids(change_views(self.changes@)))
        &&& forall|i: int| 0 <= i < self.changes@.len() ==> well_formed_change(#[trigger] self.changes@[i]@)
    }

    /// The changes from `old` to `new`: each entity only in `old` removed,
    /// each only in `new` added, and each in both that differs updated, in
    /// increasing id order. Both documents must give every entity a distinct
    /// id; `old` is checked first.
    pub fn between(old: &SceneDocument, new: &SceneDocument) -> (result: Result<SceneDiff, SceneDiffError>)
        ensures
            match spec_index(old@, SceneDiffSide::Old) {
                Err(error) => result matches Err(e) && e@ == error,
                Ok(old_entities) => match spec_index(new@, SceneDiffSide::New) {
                    Err(error) => result matches Err(e) && e@ == error,
                    Ok(new_entities) => result matches Ok(diff) && diff@ == spec_diff(old_entities, new_entities)
                        && is_diff(diff@, old_entities, new_entities),
                },
            },
    {
        let old_entries = match index_entities(&old.entities, SceneDiffSide::Old) {
            Ok(entries) => entries,
            Err(error) => return Err(error),
        };
        let new_entries = match index_entities(&new.entities, SceneDiffSide::New) {
            Ok(entries) => entries,
            Err(error) => return Err(error),
        };
        let ghost om = entries_map(old_entries@);
        let ghost nm = entries_map(new_entries@);
        let mut changes: Vec<SceneChange> = Vec::new();
        let mut a: usize = 0;
        let mut b: usize = 0;
        while a < old_entries.len() || b < new_entries.len()
            invariant
                a <= old_entries@.len(),
                b <= new_entries@.len(),
                sorted_entries(old_entries@),
                sorted_entries(new_entries@),
                om == entries_map(old_entries@),
                nm == entries_map(new_entries@),
                forall|i: int, j: int|
                    0 <= i < a && b <= j < new_entries@.len() ==> #[trigger] old_entries@[i].0 < #[trigger] new_entries@[j].0,
                forall|i: int, j: int|
                    0 <= j < b && a <= i < old_entries@.len() ==> #[trigger] new_entries@[j].0 < #[trigger] old_entries@[i].0,
                increasing(change_ids(change_views(changes@))),
                forall|c: int|
                    0 <= c < changes@.len() && a < old_entries@.len() ==> change_id(#[trigger] changes@[c]@)
                        < old_entries@[a as int].0,
                forall|c: int|
                    0 <= c < changes@.len() && b < new_entries@.len() ==> change_id(#[trigger] changes@[c]@)
                        < new_entries@[b as int].0,
                forall|c: int|
                    0 <= c < changes@.len() ==> expected_change(change_id(#[trigger] changes@[c]@), om, nm) == Some(
                        changes@[c]@,
                    ) && well_formed_change(changes@[c]@),
                forall|i: int|
                    0 <= i < a && (#[trigger] expected_change(old_entries@[i].0, om, nm)) is Some ==> change_ids(
                        change_views(changes@),
                    ).contains(old_entries@[i].0),
                forall|j: int|
                    0 <= j < b && (#[trigger] expected_change(new_entries@[j].0, om, nm)) is Some ==> change_ids(
                        change_views(changes@),
                    ).contains(new_entries@[j].0),
            decreases old_entries@.len() - a + new_entries@.len() - b,
        {
            let ghost before = changes@;
            let take_old = b >= new_entries.len() || (a < old_entries.len() && old_entries[a].0 < new_entries[b].0);
            let take_new = !take_old && (a >= old_entries.len() || new_entries[b].0 < old_entries[a].0);
            if take_old {
                let k = old_entries[a].0;
                proof {
                    lemma_entries_map_at(old_entries@, a as int);
                    if nm.contains_key(k) {
                        let j = choose|j: int| 0 <= j < new_entries@.len() && #[trigger] new_entries@[j].0 == k;
                        if j >= b {
                            assert(new_entries@[b as int].0 <= new_entries@[j].0);
                        }
                    }
                }
                let change = SceneChange::Removed { id: EntityId::new(k) };
                changes.push(change);
                proof {
                    assert(change_views(changes@) =~= change_views(before).push(change@));
                    assert(change_ids(change_views(changes@)) =~= change_ids(change_views(before)).push(k));
                    lemma_push_contains(change_ids(change_views(before)), k);
                }
                a = a + 1;
            } else if take_new {
                let k = new_entries[b].0;
                proof {
                    lemma_entries_map_at(new_entries@, b as int);
                    if om.contains_key(k) {
                        let i = choose|i: int| 0 <= i < old_entries@.len() && #[trigger] old_entries@[i].0 == k;
                        if i >= a {
                            assert(old_entries@[a as int].0 <= old_entries@[i].0);
                        }
                    }
                }
                let change = SceneChange::Added { entity: new_entries[b].1.clone() };
                changes.push(change);
                proof {
                    assert(change_views(changes@) =~= change_views(before).push(change@));
                    assert(change_ids(change_views(changes@)) =~= change_ids(change_views(before)).push(k));
                    lemma_push_contains(change_ids(change_views(before)), k);
                }
                b = b + 1;
            } else {
                let k = new_entries[b].0;
                proof {
                    lemma_entries_map_at(old_entries@, a as int);
                    lemma_entries_map_at(new_entries@, b as int);
                }
                if !same_entity(&old_entries[a].1, &new_entries[b].1) {
                    let change = SceneChange::Updated { id: EntityId::new(k), entity: new_entries[b].1.clone() };
                    changes.push(change);
                    proof {
                        assert(change_views(changes@) =~= change_views(before).push(change@));
                        assert(change_ids(change_views(changes@)) =~= change_ids(change_views(before)).push(k));
                        lemma_push_contains(change_ids(change_views(before)), k);
                    }
                }
                a = a + 1;
                b = b + 1;
            }
        }
        proof {
            let ids = change_ids(change_views(changes@));
            assert forall|id: u64| #[trigger] expected_change(id, om, nm) is Some implies ids.contains(id) by {
                if om.contains_key(id) {
                    let i = choose|i: int| 0 <= i < old_entries@.len() && #[trigger] old_entries@[i].0 == id;
                    assert(expected_change(old_entries@[i].0, om, nm) is Some);
                } else {
                    let j = choose|j: int| 0 <= j < new_entries@.len() && #[trigger] new_entries@[j].0 == id;
                    assert(expected_change(new_entries@[j].0, om, nm) is Some);
                }
            }
            assert forall|c: int| 0 <= c < change_views(changes@).len() implies expected_change(
                change_id(#[trigger] change_views(changes@)[c]),
                om,
                nm,
            ) == Some(change_views(changes@)[c]) by {
                assert(change_views(changes@)[c] == changes@[c]@);
            }
            lemma_diff_is_diff(change_views(changes@), om, nm);
        }
        Ok(SceneDiff { changes })
    }

    /// The changes, in increasing id order.
    pub fn changes(&self) -> (changes: &[SceneChange])
        ensures
            change_views(changes@) == self@,
    {
        self.changes.as_slice()
    }

    /// Whether there are no changes.
    pub fn is_empty(&self) -> (empty: bool)
        ensures
            empty == (self@.len() == 0),
    {
        self.changes.len() == 0
    }

    /// Applies the changes to the document, whose entities must have
    /// distinct ids. On success the document lists the resulting entities
    /// by increasing id; on failure it is left unchanged.
    pub fn apply_to(&self, document: &mut SceneDocument) -> (result: Result<(), SceneDiffError>)
        ensures
            match spec_index(old(document)@, SceneDiffSide::Target) {
                Err(error) => result matches Err(e) && e@ == error && *final(document) == *old(document),
                Ok(target) => match spec_apply(target, self@) {
                    Err(error) => result matches Err(e) && e@ == error && *final(document) == *old(document),
                    Ok(entities) => result is Ok && final(document)@ == spec_listing(entities),
                },
            },
    {
        proof {
            use_type_invariant(self);
        }
        let mut entries = match index_entities(&document.entities, SceneDiffSide::Target) {
            Ok(entries) => entries,
            Err(error) => return Err(error),
        };
        let ghost target = entries_map(entries@);
        let ghost changes = self@;
        assert(changes.subrange(0, changes.len() as int) =~= changes);
        let mut i: usize = 0;
        while i < self.changes.len()
            invariant
                i <= self.changes@.len(),
                changes == change_views(self.changes@),
                forall|j: int| 0 <= j < self.changes@.len() ==> well_formed_change(#[trigger] self.changes@[j]@),
                sorted_entries(entries@),
                *document == *old(document),
                spec_index(old(document)@, SceneDiffSide::Target) == Ok::<Map<u64, EntityView>, SceneDiffErrorView>(
                    target,
                ),
                spec_apply(target, changes) == spec_apply(
                    entries_map(entries@),
                    changes.subrange(i as int, changes.len() as int),
                ),
            decreases self.changes@.len() - i,
        {
            let ghost rest = changes.subrange(i as int, changes.len() as int);
            let ghost current = entries_map(entries@);
            assert(rest.len() > 0);
            assert(rest[0] == self.changes@[i as int]@);
            assert(rest.drop_first() =~= changes.subrange(i + 1, changes.len() as int));
            assert(well_formed_change(self.changes@[i as int]@));
            match &self.changes[i] {
                SceneChange::Added { entity } => {
                    let id = match entity.id {
                        Some(id) => id,
                        None => {
                            return Err(SceneDiffError::MissingEntityId { side: SceneDiffSide::Patch, index: 0 });
                        },
                    };
                    if find_entry(&entries, id).is_some() {
                        let error = SceneDiffError::DuplicateEntityId { side: SceneDiffSide::Target, id: EntityId::new(id) };
                        assert(spec_apply(current, rest) == Err::<Map<u64, EntityView>, SceneDiffErrorView>(error@));
                        return Err(error);
                    }
                    insert_entry(&mut entries, id, entity.clone());
                },
                SceneChange::Removed { id } => {
                    match find_entry(&entries, id.raw()) {
                        Some(index) => remove_entry(&mut entries, index),
                        None => {
                            let error = SceneDiffError::MissingTargetEntity { id: *id };
                            assert(spec_apply(current, rest) == Err::<Map<u64, EntityView>, SceneDiffErrorView>(error@));
                            return Err(error);
                        },
                    }
                },
                SceneChange::Updated { id, entity } => {
                    match find_entry(&entries, id.raw()) {
                        Some(index) => replace_entry(&mut entries, index, entity.clone()),
                        None => {
                            let error = SceneDiffError::MissingTargetEntity { id: *id };
                            assert(spec_apply(current, rest) == Err::<Map<u64, EntityView>, SceneDiffErrorView>(error@));
                            return Err(error);
                        },
                    }
                },
            }
            i = i + 1;
        }
        proof {
            assert(changes.subrange(i as int, changes.len() as int).len() == 0);
            lemma_entries_listing(entries@);
        }
        let values = entries_values(&entries);
        proof {
            lemma_listing_is(entity_views(values@), entries_map(entries@));
        }
        document.entities = values;
        Ok(())
    }
}

proof fn lemma_index_from_side(
    entities: Seq<EntityView>,
    first: SceneDiffSide,
    second: SceneDiffSide,
    index: nat,
    found: Map<u64, EntityView>,
)
    requires
        spec_index_from(entities, first, index, found) is Ok,
        keys_match(found),
    ensures
        spec_index_from(entities, second, index, found) == spec_index_from(entities, first, index, found),
        keys_match(spec_index_from(entities, first, index, found)->Ok_0),
    decreases entities.len() - index,
{
    if index < entities.len() {
        let entity = entities[index as int];
        if let Some(id) = entity.0 {
            if !found.contains_key(id) {
                let next = found.insert(id, entity);
                assert(keys_match(next));
                lemma_index_from_side(entities, first, second, index + 1, next);
            }
        }
    }
}

/// Indexing succeeds or fails on the same documents whichever side it is
/// for, and on success stores every entity under its own id.
pub proof fn lemma_index_side(entities: Seq<EntityView>, first: SceneDiffSide, second: SceneDiffSide)
    requires
        spec_index(entities, first) is Ok,
    ensures
        spec_index(entities, second) == spec_index(entities, first),
        keys_match(spec_index(entities, first)->Ok_0),
{
    lemma_index_from_side(entities, first, second, 0, Map::empty());
}

/// The target with the entities of the given ids taken from `new`.
pub open spec fn overlay(target: Map<u64, EntityView>, ids: Seq<u64>, new: Map<u64, EntityView>) -> Map<
    u64,
    EntityView,
> {
    Map::new(
        |id: u64|
            if ids.contains(id) {
                new.contains_key(id)
            } else {
                target.contains_key(id)
            },
        |id: u64|
            if ids.contains(id) {
                new[id]
            } else {
                target[id]
            },
    )
}

proof fn lemma_apply_owed_changes(
    target: Map<u64, EntityView>,
    changes: Seq<SceneChangeView>,
    old: Map<u64, EntityView>,
    new: Map<u64, EntityView>,
)
    requires
        increasing(change_ids(changes)),
        forall|i: int| 0 <= i < changes.len() ==> expected_change(change_id(#[trigger] changes[i]), old, new) == Some(changes[i]),
        keys_match(new),
        forall|i: int|
            0 <= i < changes.len() ==> target.contains_key(change_id(#[trigger] changes[i])) == old.contains_key(
                change_id(changes[i]),
            ),
    ensures
        spec_apply(target, changes) == Ok::<Map<u64, EntityView>, SceneDiffErrorView>(
            overlay(target, change_ids(changes), new),
        ),
    decreases changes.len(),
{
    let ids = change_ids(changes);
    if changes.len() == 0 {
        assert(overlay(target, ids, new) =~= target);
    } else {
        let change = changes[0];
        let id = change_id(change);
        assert(expected_change(change_id(changes[0]), old, new) == Some(changes[0]));
        let next = match change {
            SceneChangeView::Removed { .. } => target.remove(id),
            _ => target.insert(id, new[id]),
        };
        let rest = changes.drop_first();
        let rest_ids = change_ids(rest);
        assert(rest_ids =~= ids.drop_first());
        assert forall|i: int| 0 <= i < rest.len() implies next.contains_key(change_id(#[trigger] rest[i]))
            == old.contains_key(change_id(rest[i])) by {
            assert(rest[i] == changes[i + 1]);
            assert(ids[0] < ids[i + 1]);
        }
        assert forall|i: int| 0 <= i < rest.len() implies expected_change(change_id(#[trigger] rest[i]), old, new)
            == Some(rest[i]) by {
            assert(rest[i] == changes[i + 1]);
        }
        lemma_apply_owed_changes(next, rest, old, new);
        assert(spec_apply(target, changes) == spec_apply(next, rest));
        assert forall|k: u64| ids.contains(k) <==> (k == id || rest_ids.contains(k)) by {
            if ids.contains(k) && k != id {
                let j = choose|j: int| 0 <= j < ids.len() && ids[j] == k;
                assert(j != 0);
                assert(rest_ids[j - 1] == k);
            }
            if rest_ids.contains(k) {
                let j = choose|j: int| 0 <= j < rest_ids.len() && rest_ids[j] == k;
                assert(ids[j + 1] == k);
            }
            assert(ids[0] == id);
        }
        assert(!rest_ids.contains(id)) by {
            if rest_ids.contains(id) {
                let j = choose|j: int| 0 <= j < rest_ids.len() && rest_ids[j] == id;
                assert(ids[0] < ids[j + 1]);
            }
        }
        assert(overlay(next, rest_ids, new) =~= overlay(target, ids, new));
    }
}

/// Applying the diff between two documents to the first one succeeds and
/// gives the second one's entities by id.
pub proof fn lemma_apply_between(old: Seq<EntityView>, new: Seq<EntityView>, changes: Seq<SceneChangeView>)
    requires
        spec_index(old, SceneDiffSide::Old) is Ok,
        spec_index(new, SceneDiffSide::New) is Ok,
        is_diff(changes, spec_index(old, SceneDiffSide::Old)->Ok_0, spec_index(new, SceneDiffSide::New)->Ok_0),
    ensures
        spec_index(old, SceneDiffSide::Target) == spec_index(old, SceneDiffSide::Old),
        spec_apply(spec_index(old, SceneDiffSide::Target)->Ok_0, changes) == spec_index(new, SceneDiffSide::New),
{
    lemma_index_side(old, SceneDiffSide::Old, SceneDiffSide::Target);
    lemma_index_side(new, SceneDiffSide::New, SceneDiffSide::Target);
    let o = spec_index(old, SceneDiffSide::Old)->Ok_0;
    let n = spec_index(new, SceneDiffSide::New)->Ok_0;
    let ids = change_ids(changes);
    assert forall|i: int| 0 <= i < changes.len() implies o.contains_key(change_id(#[trigger] changes[i]))
        == o.contains_key(change_id(changes[i])) by {
    }
    lemma_apply_owed_changes(o, changes, o, n);
    assert forall|k: u64| #[trigger] overlay(o, ids, n).contains_key(k) == n.contains_key(k) by {
        if !ids.contains(k) {
            assert(!(expected_change(k, o, n) is Some));
        }
    }
    assert forall|k: u64| #[trigger] overlay(o, ids, n).contains_key(k) implies overlay(o, ids, n)[k] == n[k] by {
        if !ids.contains(k) {
            assert(!(expected_change(k, o, n) is Some));
        }
    }
    assert(overlay(o, ids, n) =~= n);
}

/// The name a diff side is printed with.
pub open spec fn spec_side_name(side: SceneDiffSide) -> Seq<char> {
    match side {
        SceneDiffSide::Old => "Old"@,
        SceneDiffSide::New => "New"@,
        SceneDiffSide::Target => "Target"@,
        SceneDiffSide::Patch => "Patch"@,
    }
}

fn side_name(side: SceneDiffSide) -> (name: &'static str)
    ensures
        name@ == spec_side_name(side),
{
    match side {
        SceneDiffSide::Old => "Old",
        SceneDiffSide::New => "New",
        SceneDiffSide::Target => "Target",
        SceneDiffSide::Patch => "Patch",
    }
}

impl SceneDiffErrorView {
    pub open spec fn message(self) -> Seq<char> {
        match self {
            SceneDiffErrorView::MissingEntityId { side, index } => spec_side_name(side)
                + " scene entity at index "@ + spec_decimal(index) + " has no id"@,
            SceneDiffErrorView::DuplicateEntityId { side, id } => spec_side_name(side)
                + " scene has duplicate entity id "@ + spec_decimal(id as nat),
            SceneDiffErrorView::MissingTargetEntity { id } => "target scene is missing entity "@ + spec_decimal(
                id as nat,
            ),
        }
    }
}

impl SceneDiffError {
    /// The human-readable description of the error.
    pub fn message(&self) -> (text: String)
        ensures
            text@ == self@.message(),
    {
        match self {
            SceneDiffError::MissingEntityId { side, index } => {
                let mut text = side_name(*side).to_owned();
                text.append(" scene entity at index ");
                let digits = decimal_string(*index as u64);
                text.append(digits.as_str());
                text.append(" has no id");
                text
            },
            SceneDiffError::DuplicateEntityId { side, id } => {
                let mut text = side_name(*side).to_owned();
                text.append(" scene has duplicate entity id ");
                let digits = decimal_string(id.raw());
                text.append(digits.as_str());
                text
            },
            SceneDiffError::MissingTargetEntity { id } => {
                let mut text = "target scene is missing entity ".to_owned();
                let digits = decimal_string(id.raw());
                text.append(digits.as_str());
                text
            },
        }
    }
}

/// A copy of a change.
fn copy_change(change: &SceneChange) -> (copy: SceneChange)
    ensures
        copy@ == change@,
{
    match change {
        SceneChange::Added { entity } => SceneChange::Added { entity: entity.clone() },
        SceneChange::Removed { id } => SceneChange::Removed { id: *id },
        SceneChange::Updated { id, entity } => SceneChange::Updated { id: *id, entity: entity.clone() },
    }
}

impl Clone for SceneDiff {
    fn clone(&self) -> (copy: SceneDiff)
        ensures
            copy@ == self@,
    {
        proof {
            use_type_invariant(self);
        }
        let mut changes: Vec<SceneChange> = Vec::new();
        let mut i: usize = 0;
        while i < self.changes.len()
            invariant
                i <= self.changes@.len(),
                change_views(changes@) == change_views(self.changes@).take(i as int),
            decreases self.changes@.len() - i,
        {
            let ghost before = changes@;
            let change = copy_change(&self.changes[i]);
            changes.push(change);
            assert(change_views(changes@) =~= change_views(before).push(change@));
            assert(change_views(changes@) =~= change_views(self.changes@).take(i + 1));
            i = i + 1;
        }
        assert(change_views(self.changes@).take(i as int) =~= change_views(self.changes@));
        assert forall|j: int| 0 <= j < changes@.len() implies well_formed_change(#[trigger] changes@[j]@) by {
            assert(change_views(changes@)[j] == changes@[j]@);
            assert(change_views(self.changes@)[j] == self.changes@[j]@);
        }
        SceneDiff { changes }
    }
}

impl Default for SceneDiff {
    fn default() -> (diff: SceneDiff)
        ensures
            diff@ == Seq::<SceneChangeView>::empty(),
    {
        let diff = SceneDiff { changes: Vec::new() };
        assert(diff@ =~= Seq::<SceneChangeView>::empty());
        diff
    }
}

} // verus!
