//! Scenes loaded into a world: which entities each brought in, and their
//! unloading and replacement, all or nothing.
use vstd::prelude::*;

use crate::world::{
    raw_ids_of, records_in, spec_commit, spec_plan, wanted_ids, EntityId, ResolvedEntity, World, WorldError,
    WorldErrorView, WorldView,
};

verus! {

/// Whether the values never decrease.
pub open spec fn nondecreasing(values: Seq<u64>) -> bool {
    forall|i: int, j: int| 0 <= i <= j < values.len() ==> #[trigger] values[i] <= #[trigger] values[j]
}

/// The entities a scene brought into a world, by increasing id, with the
/// scene's source.
#[derive(Debug, Clone, PartialEq, Eq)]
pub struct LoadedScene {
    source: String,
    entities: Vec<EntityId>,
}

impl View for LoadedScene {
    type V = (Seq<char>, Seq<u64>);

    closed spec fn view(&self) -> (Seq<char>, Seq<u64>) {
        (self.source@, raw_ids_of(self.entities@))
    }
}

/// Sorts ids by inserting each in place.
fn sort_ids(ids: Vec<EntityId>) -> (sorted: Vec<EntityId>)
    ensures
        nondecreasing(raw_ids_of(sorted@)),
        raw_ids_of(sorted@).to_multiset() == raw_ids_of(ids@).to_multiset(),
{
    let mut sorted: Vec<EntityId> = Vec::new();
    let mut i: usize = 0;
    proof {
        assert(raw_ids_of(ids@).take(0) =~= Seq::<u64>::empty());
        assert(raw_ids_of(sorted@) =~= Seq::<u64>::empty());
    }
    while i < ids.len()
        invariant
            i <= ids@.len(),
            nondecreasing(raw_ids_of(sorted@)),
            raw_ids_of(sorted@).to_multiset() == raw_ids_of(ids@).take(i as int).to_multiset(),
        decreases ids@.len() - i,
    {
        let id = ids[i];
        let mut k: usize = 0;
        while k < sorted.len() && sorted[k].raw() <= id.raw()
            invariant
                k <= sorted@.len(),
                forall|j: int| 0 <= j < k ==> (#[trigger] sorted@[j])@ <= id@,
            decreases sorted@.len() - k,
        {
            k = k + 1;
        }
        let ghost before = raw_ids_of(sorted@);
        sorted.insert(k, id);
        proof {
            let after = raw_ids_of(sorted@);
            assert(after =~= before.insert(k as int, id@));
            assert forall|a: int, b: int| 0 <= a <= b < after.len() implies #[trigger] after[a] <= #[trigger] after[b] by {
                if b < k {
                } else if b == k {
                    if a < k {
                        assert(after[a] == before[a]);
                    }
                } else if a < k {
                    assert(after[a] == before[a]);
                    assert(after[b] == before[b - 1]);
                    assert(before[a] <= before[b - 1]);
                } else if a == k {
                    assert(after[b] == before[b - 1]);
                    assert(before[k as int] > id@);
                    assert(before[k as int] <= before[b - 1]);
                } else {
                    assert(before[a - 1] <= before[b - 1]);
                }
            }
            vstd::seq_lib::to_multiset_insert(before, k as int, id@);
            let taken = raw_ids_of(ids@).take(i as int);
            assert(raw_ids_of(ids@).take(i + 1) =~= taken.push(id@));
            vstd::seq_lib::to_multiset_build(taken, id@);
        }
        i = i + 1;
    }
    assert(raw_ids_of(ids@).take(i as int) =~= raw_ids_of(ids@));
    sorted
}

impl LoadedScene {
    /// The entities of a scene, sorted by id.
    pub fn new(source: &str, entities: Vec<EntityId>) -> (scene: LoadedScene)
        ensures
            scene@.0 == source@,
            nondecreasing(scene@.1),
            scene@.1.to_multiset() == raw_ids_of(entities@).to_multiset(),
    {
        LoadedScene { source: source.to_owned(), entities: sort_ids(entities) }
    }

    pub fn source(&self) -> (source: &str)
        ensures
            source@ == self@.0,
    {
        self.source.as_str()
    }

    pub fn entities(&self) -> (entities: &[EntityId])
        ensures
            raw_ids_of(entities@) == self@.1,
    {
        self.entities.as_slice()
    }
}

/// The first of the ids that the world does not hold.
pub open spec fn first_missing(ids: Seq<u64>, held: Set<u64>) -> Option<u64>
    decreases ids.len(),
{
    if ids.len() == 0 {
        None
    } else if !held.contains(ids[0]) {
        Some(ids[0])
    } else {
        first_missing(ids.drop_first(), held)
    }
}

impl<R> World<R> {
    /// The first of the ids that the world does not hold, if any.
    fn missing_among(&self, ids: &[EntityId]) -> (missing: Option<EntityId>)
        ensures
            match first_missing(raw_ids_of(ids@), self@.records.dom()) {
                Some(raw) => missing matches Some(id) && id@ == raw,
                None => missing is None,
            },
    {
        let mut i: usize = 0;
        assert(raw_ids_of(ids@).skip(0) =~= raw_ids_of(ids@));
        while i < ids.len()
            invariant
                i <= ids@.len(),
                first_missing(raw_ids_of(ids@), self@.records.dom()) == first_missing(
                    raw_ids_of(ids@).skip(i as int),
                    self@.records.dom(),
                ),
            decreases ids@.len() - i,
        {
            let ghost rest = raw_ids_of(ids@).skip(i as int);
            assert(rest[0] == ids@[i as int]@);
            assert(rest.drop_first() =~= raw_ids_of(ids@).skip(i + 1));
            if !self.contains(ids[i]) {
                return Some(ids[i]);
            }
            i = i + 1;
        }
        None
    }

    /// Removes the entities, handing back each removed record with its id.
    fn remove_all(&mut self, ids: &[EntityId]) -> (removed: Vec<(u64, R)>)
        ensures
            final(self)@.records == old(self)@.records.remove_keys(raw_ids_of(ids@).to_set()),
            final(self)@.next_entity == old(self)@.next_entity,
            forall|k: int| 0 <= k < removed@.len() ==> old(self)@.records.contains_key(#[trigger] removed@[k].0)
                && old(self)@.records[removed@[k].0] == removed@[k].1 && raw_ids_of(ids@).to_set().contains(
                removed@[k].0,
            ),
            forall|a: int, b: int| 0 <= a < b < removed@.len() ==> #[trigger] removed@[a].0 != #[trigger] removed@[b].0,
            forall|raw: u64| #[trigger] old(self)@.records.contains_key(raw) && raw_ids_of(ids@).to_set().contains(raw)
                ==> exists|k: int| 0 <= k < removed@.len() && removed@[k].0 == raw,
    {
        let mut removed: Vec<(u64, R)> = Vec::new();
        let mut i: usize = 0;
        let ghost start = self@.records;
        assert(raw_ids_of(ids@).take(0).to_set() =~= Set::<u64>::empty());
        assert(start.remove_keys(Set::<u64>::empty()) =~= start);
        while i < ids.len()
            invariant
                i <= ids@.len(),
                start == old(self)@.records,
                self@.records == start.remove_keys(raw_ids_of(ids@).take(i as int).to_set()),
                self@.next_entity == old(self)@.next_entity,
                forall|k: int| 0 <= k < removed@.len() ==> start.contains_key(#[trigger] removed@[k].0) && start[removed@[k].0]
                    == removed@[k].1 && raw_ids_of(ids@).take(i as int).to_set().contains(removed@[k].0),
                forall|a: int, b: int| 0 <= a < b < removed@.len() ==> #[trigger] removed@[a].0 != #[trigger] removed@[b].0,
                forall|raw: u64| #[trigger] start.contains_key(raw) && raw_ids_of(ids@).take(i as int).to_set().contains(raw)
                    ==> exists|k: int| 0 <= k < removed@.len() && removed@[k].0 == raw,
            decreases ids@.len() - i,
        {
            let id = ids[i];
            let ghost done = raw_ids_of(ids@).take(i as int);
            let ghost before = removed@;
            assert(raw_ids_of(ids@).take(i + 1) =~= done.push(id@));
            proof {
                done.lemma_push_to_set_commute(id@);
            }
            match self.remove(id) {
                Some(record) => {
                    removed.push((id.raw(), record));
                    proof {
                        assert forall|a: int, b: int| 0 <= a < b < removed@.len() implies #[trigger] removed@[a].0
                            != #[trigger] removed@[b].0 by {
                            if b == before.len() {
                                assert(done.to_set().contains(before[a].0));
                            }
                        }
                        assert forall|raw: u64| #[trigger] start.contains_key(raw) && done.push(id@).to_set().contains(raw)
                            implies exists|k: int| 0 <= k < removed@.len() && removed@[k].0 == raw by {
                            if raw == id@ {
                                assert(removed@[before.len() as int].0 == raw);
                            } else {
                                assert(done.to_set().contains(raw));
                                let k = choose|k: int| 0 <= k < before.len() && before[k].0 == raw;
                                assert(removed@[k].0 == raw);
                            }
                        }
                    }
                },
                None => {
                    proof {
                        assert forall|raw: u64| #[trigger] start.contains_key(raw) && done.push(id@).to_set().contains(raw)
                            implies exists|k: int| 0 <= k < removed@.len() && removed@[k].0 == raw by {
                            if raw == id@ {
                                assert(done.to_set().contains(raw));
                            } else {
                                assert(done.to_set().contains(raw));
                            }
                            let k = choose|k: int| 0 <= k < before.len() && before[k].0 == raw;
                            assert(removed@[k].0 == raw);
                        }
                    }
                },
            }
            proof {
                assert(self@.records =~= start.remove_keys(done.push(id@).to_set()));
            }
            i = i + 1;
        }
        assert(raw_ids_of(ids@).take(i as int) =~= raw_ids_of(ids@));
        removed
    }

    /// Puts removed records back under their ids.
    fn restore(&mut self, removed: Vec<(u64, R)>, ids: Ghost<Set<u64>>, original: Ghost<Map<u64, R>>)
        requires
            old(self)@.records == original@.remove_keys(ids@),
            forall|k: int| 0 <= k < removed@.len() ==> original@.contains_key(#[trigger] removed@[k].0)
                && original@[removed@[k].0] == removed@[k].1 && ids@.contains(removed@[k].0),
            forall|a: int, b: int| 0 <= a < b < removed@.len() ==> #[trigger] removed@[a].0 != #[trigger] removed@[b].0,
            forall|raw: u64| #[trigger] original@.contains_key(raw) && ids@.contains(raw) ==> exists|k: int|
                0 <= k < removed@.len() && removed@[k].0 == raw,
        ensures
            final(self)@.records == original@,
            final(self)@.next_entity == old(self)@.next_entity,
    {
        let mut pending = removed;
        let ghost all = pending@;
        let mut done: usize = 0;
        let total = pending.len();
        let ghost n = all.len();
        while pending.len() > 0
            invariant
                n == all.len(),
                n == total,
                done + pending@.len() == n,
                forall|k: int| 0 <= k < pending@.len() ==> #[trigger] pending@[k] == all[done + k],
                forall|k: int| 0 <= k < all.len() ==> original@.contains_key(#[trigger] all[k].0) && original@[all[k].0]
                    == all[k].1 && ids@.contains(all[k].0),
                forall|a: int, b: int| 0 <= a < b < all.len() ==> #[trigger] all[a].0 != #[trigger] all[b].0,
                forall|raw: u64| #[trigger] original@.contains_key(raw) && ids@.contains(raw) ==> exists|k: int|
                    0 <= k < all.len() && all[k].0 == raw,
                forall|raw: u64| #[trigger] self@.records.contains_key(raw) <==> (original@.contains_key(raw) && (
                    !ids@.contains(raw) || exists|k: int| 0 <= k < done && all[k].0 == raw)),
                forall|raw: u64| #[trigger] self@.records.contains_key(raw) ==> self@.records[raw] == original@[raw],
                self@.next_entity == old(self)@.next_entity,
            decreases pending@.len(),
        {
            let (raw, record) = pending.remove(0);
            proof {
                assert(all[done as int] == (raw, record));
                if self@.records.contains_key(raw) {
                    let k = choose|k: int| 0 <= k < done && all[k].0 == raw;
                    assert(all[k].0 != all[done as int].0);
                }
            }
            self.store(raw, record);
            proof {
                assert forall|k: int| 0 <= k < pending@.len() implies #[trigger] pending@[k] == all[done + 1 + k] by {
                }
                assert forall|x: u64| #[trigger] self@.records.contains_key(x) <==> (original@.contains_key(x) && (
                    !ids@.contains(x) || exists|k: int| 0 <= k < done + 1 && all[k].0 == x)) by {
                    if x == raw {
                        assert(all[done as int].0 == x);
                    } else if exists|k: int| 0 <= k < done + 1 && all[k].0 == x {
                        let k = choose|k: int| 0 <= k < done + 1 && all[k].0 == x;
                        assert(k != done);
                    }
                }
            }
            done = done + 1;
        }
        proof {
            assert forall|raw: u64| #[trigger] self@.records.contains_key(raw) <==> original@.contains_key(raw) by {
                if original@.contains_key(raw) && ids@.contains(raw) {
                    let k = choose|k: int| 0 <= k < all.len() && all[k].0 == raw;
                    assert(k < done);
                }
            }
            assert(self@.records =~= original@);
        }
    }

    /// Loads a scene's entities as `load_resolved` does and records which
    /// entities it brought in.
    pub fn load_scene_resolved(&mut self, source: &str, entities: Vec<ResolvedEntity<R>>) -> (result: Result<
        LoadedScene,
        WorldError,
    >)
        ensures
            match spec_plan(old(self)@.records.dom(), old(self)@.next_entity, wanted_ids(entities@)) {
                Ok((planned, next)) => result matches Ok(scene) && scene@.0 == source@ && nondecreasing(scene@.1)
                    && scene@.1.to_multiset() == planned.to_multiset() && final(self)@.next_entity == next
                    && final(self)@.records == spec_commit(old(self)@.records, planned, records_in(entities@)),
                Err(error) => result matches Err(e) && e@ == error && final(self)@ == old(self)@,
            },
    {
        match self.load_resolved(entities) {
            Ok(loaded) => Ok(LoadedScene::new(source, loaded)),
            Err(error) => Err(error),
        }
    }

    /// Unloads a scene: removes every entity it brought in, or, where one of
    /// them is gone already, nothing.
    pub fn unload_scene(&mut self, scene: &LoadedScene) -> (result: Result<Vec<EntityId>, WorldError>)
        ensures
            match first_missing(scene@.1, old(self)@.records.dom()) {
                Some(raw) => result matches Err(e) && e@ == WorldErrorView::MissingEntity(raw) && final(self)@
                    == old(self)@,
                None => result matches Ok(removed) && raw_ids_of(removed@) == scene@.1 && final(self)@ == (WorldView {
                    records: old(self)@.records.remove_keys(scene@.1.to_set()),
                    ..old(self)@
                }),
            },
    {
        if let Some(missing) = self.missing_among(scene.entities.as_slice()) {
            return Err(WorldError::MissingEntity(missing));
        }
        let _ = self.remove_all(scene.entities.as_slice());
        Ok(scene.entities.clone())
    }

    /// Replaces a scene's entities with new ones, all or nothing: the old
    /// entities must all be present, and the new ones are placed as
    /// `load_resolved` would place them in the world without the old ones.
    pub fn replace_scene_resolved(&mut self, scene: &LoadedScene, entities: Vec<ResolvedEntity<R>>) -> (result:
        Result<LoadedScene, WorldError>)
        ensures
            match first_missing(scene@.1, old(self)@.records.dom()) {
                Some(raw) => result matches Err(e) && e@ == WorldErrorView::MissingEntity(raw) && final(self)@
                    == old(self)@,
                None => match spec_plan(
                    old(self)@.records.remove_keys(scene@.1.to_set()).dom(),
                    old(self)@.next_entity,
                    wanted_ids(entities@),
                ) {
                    Ok((planned, next)) => result matches Ok(replaced) && replaced@.0 == scene@.0 && nondecreasing(
                        replaced@.1,
                    ) && replaced@.1.to_multiset() == planned.to_multiset() && final(self)@.next_entity == next
                        && final(self)@.records == spec_commit(
                        old(self)@.records.remove_keys(scene@.1.to_set()),
                        planned,
                        records_in(entities@),
                    ),
                    Err(error) => result matches Err(e) && e@ == error && final(self)@ == old(self)@,
                },
            },
    {
        if let Some(missing) = self.missing_among(scene.entities.as_slice()) {
            return Err(WorldError::MissingEntity(missing));
        }
        let ghost original = self@.records;
        let ghost ids = scene@.1.to_set();
        let removed = self.remove_all(scene.entities.as_slice());
        match self.load_resolved(entities) {
            Ok(loaded) => Ok(LoadedScene::new(scene.source.as_str(), loaded)),
            Err(error) => {
                self.restore(removed, Ghost(ids), Ghost(original));
                proof {
                    assert(self@ == old(self)@);
                }
                Err(error)
            },
        }
    }
}

} // verus!
