//! The entity world: records stored under entity ids, an id allocator that
//! wraps around before the reserved maximum id, and scene loads that either
//! commit completely or not at all.
use vstd::prelude::*;

use crate::text::{decimal_string, spec_decimal};

verus! {

/// The id of an entity in a world.
#[derive(Debug, Clone, Copy, PartialEq, Eq, Hash, PartialOrd, Ord, Structural)]
pub struct EntityId(u64);

impl View for EntityId {
    type V = u64;

    closed spec fn view(&self) -> u64 {
        self.0
    }
}

impl EntityId {
    pub fn new(raw: u64) -> (id: EntityId)
        ensures
            id@ == raw,
    {
        EntityId(raw)
    }

    pub fn raw(self) -> (raw: u64)
        ensures
            raw == self@,
    {
        self.0
    }
}

/// Why a world refused a change.
#[derive(Debug, Clone, Copy, PartialEq, Eq, Structural)]
pub enum WorldError {
    /// An entity with the id exists already.
    DuplicateEntityId(EntityId),
    /// The id cannot be allocated: it is the reserved maximum id, or no id is
    /// left to allocate.
    EntityIdOverflow(EntityId),
    /// No entity has the id.
    MissingEntity(EntityId),
}

/// What a world error says, with its id as a number.
pub enum WorldErrorView {
    DuplicateEntityId(u64),
    EntityIdOverflow(u64),
    MissingEntity(u64),
}

impl View for WorldError {
    type V = WorldErrorView;

    open spec fn view(&self) -> WorldErrorView {
        match self {
            WorldError::DuplicateEntityId(entity) => WorldErrorView::DuplicateEntityId(entity@),
            WorldError::EntityIdOverflow(entity) => WorldErrorView::EntityIdOverflow(entity@),
            WorldError::MissingEntity(entity) => WorldErrorView::MissingEntity(entity@),
        }
    }
}

/// What a world error says.
pub open spec fn spec_world_error_message(error: WorldErrorView) -> Seq<char> {
    match error {
        WorldErrorView::DuplicateEntityId(raw) => "duplicate entity id "@ + spec_decimal(raw as nat),
        WorldErrorView::EntityIdOverflow(raw) => "entity id "@ + spec_decimal(raw as nat) + " cannot advance allocator"@,
        WorldErrorView::MissingEntity(raw) => "missing entity "@ + spec_decimal(raw as nat),
    }
}

impl WorldError {
    /// The human-readable description of the error.
    pub fn message(&self) -> (text: String)
        ensures
            text@ == spec_world_error_message(self@),
    {
        match self {
            WorldError::DuplicateEntityId(entity) => {
                let mut text = "duplicate entity id ".to_owned();
                text.append(decimal_string(entity.raw()).as_str());
                text
            },
            WorldError::EntityIdOverflow(entity) => {
                let mut text = "entity id ".to_owned();
                text.append(decimal_string(entity.raw()).as_str());
                text.append(" cannot advance allocator");
                text
            },
            WorldError::MissingEntity(entity) => {
                let mut text = "missing entity ".to_owned();
                text.append(decimal_string(entity.raw()).as_str());
                text
            },
        }
    }
}

/// The number of ids the allocator hands out: `1..=u64::MAX - 1`.
pub open spec fn id_space() -> int {
    u64::MAX - 1
}

/// An id the allocator may hand out.
pub open spec fn is_allocatable(raw: u64) -> bool {
    1 <= raw < u64::MAX
}

/// Where allocation starts from a stored next id: 0 and the reserved maximum
/// start over at 1.
pub open spec fn normalize_allocatable(raw: u64) -> u64 {
    if raw == 0 || raw == u64::MAX {
        1
    } else {
        raw
    }
}

/// The id allocation moves on to after `raw`, wrapping to 1 before the
/// reserved maximum.
pub open spec fn next_allocatable_after(raw: u64) -> u64 {
    if raw >= u64::MAX - 1 {
        1
    } else {
        (raw + 1) as u64
    }
}

/// The `k`-th id that allocation from `start` tries.
pub open spec fn candidate(start: u64, k: nat) -> u64
    decreases k,
{
    if k == 0 {
        start
    } else {
        next_allocatable_after(candidate(start, (k - 1) as nat))
    }
}

/// `k` is the first try from `start` that finds an id not in `ids`.
pub open spec fn is_first_free(ids: Set<u64>, start: u64, k: int) -> bool {
    &&& 0 <= k < id_space()
    &&& !ids.contains(candidate(start, k as nat))
    &&& forall|j: int| 0 <= j < k ==> ids.contains(#[trigger] candidate(start, j as nat))
}

/// The id that allocation hands out when the world holds `ids` and its next
/// id is `next`: the first id not in use, trying ids upwards from `next` and
/// wrapping around; nothing where every id is in use.
pub open spec fn spec_allocate(ids: Set<u64>, next: u64) -> Option<u64> {
    let start = normalize_allocatable(next);
    if exists|k: int| is_first_free(ids, start, k) {
        Some(candidate(start, (choose|k: int| is_first_free(ids, start, k)) as nat))
    } else {
        None
    }
}

proof fn lemma_candidate_closed_form(start: u64, k: nat)
    requires
        is_allocatable(start),
    ensures
        candidate(start, k) == ((start - 1 + k) % id_space()) + 1,
    decreases k,
{
    let m = id_space();
    if k == 0 {
        vstd::arithmetic::div_mod::lemma_small_mod((start - 1) as nat, m as nat);
    } else {
        lemma_candidate_closed_form(start, (k - 1) as nat);
        let a = start - 1 + (k - 1);
        vstd::arithmetic::div_mod::lemma_fundamental_div_mod(a, m);
        vstd::arithmetic::div_mod::lemma_mod_bound(a, m);
        let q = a / m;
        let r = a % m;
        if r + 1 < m {
            vstd::arithmetic::div_mod::lemma_fundamental_div_mod_converse_mod(a + 1, m, q, r + 1);
        } else {
            assert((q + 1) * m == q * m + m) by (nonlinear_arith);
            vstd::arithmetic::div_mod::lemma_fundamental_div_mod_converse_mod(a + 1, m, q + 1, 0);
        }
    }
}

/// Every try stays among the allocatable ids, and the tries come back to
/// `start` exactly after `id_space()` steps.
proof fn lemma_candidate_cycle(start: u64, k: nat)
    requires
        is_allocatable(start),
        k <= id_space(),
    ensures
        is_allocatable(candidate(start, k)),
        candidate(start, k) == start <==> (k == 0 || k == id_space()),
{
    let m = id_space();
    lemma_candidate_closed_form(start, k);
    vstd::arithmetic::div_mod::lemma_mod_bound(start - 1 + k, m);
    if k == m {
        vstd::arithmetic::div_mod::lemma_fundamental_div_mod_converse_mod(start - 1 + k, m, 1, start - 1);
    } else if start - 1 + k < m {
        vstd::arithmetic::div_mod::lemma_small_mod((start - 1 + k) as nat, m as nat);
    } else {
        vstd::arithmetic::div_mod::lemma_fundamental_div_mod_converse_mod(start - 1 + k, m, 1, start - 1 + k - m);
    }
}

/// Every allocatable id is tried within `id_space()` steps.
proof fn lemma_candidate_covers(start: u64, raw: u64)
    requires
        is_allocatable(start),
        is_allocatable(raw),
    ensures
        exists|k: int| 0 <= k < id_space() && #[trigger] candidate(start, k as nat) == raw,
{
    let m = id_space();
    let k: int = if raw >= start {
        raw - start
    } else {
        raw - start + m
    };
    lemma_candidate_closed_form(start, k as nat);
    if start - 1 + k < m {
        vstd::arithmetic::div_mod::lemma_small_mod((start - 1 + k) as nat, m as nat);
    } else {
        vstd::arithmetic::div_mod::lemma_fundamental_div_mod_converse_mod(start - 1 + k, m, 1, start - 1 + k - m);
    }
    assert(candidate(start, k as nat) == raw);
}

/// Allocation finds nothing exactly when every allocatable id is in use.
pub proof fn lemma_allocate_none_iff_full(ids: Set<u64>, next: u64)
    ensures
        spec_allocate(ids, next) is None <==> forall|raw: u64| is_allocatable(raw) ==> ids.contains(raw),
        spec_allocate(ids, next) matches Some(raw) ==> is_allocatable(raw) && !ids.contains(raw),
{
    let start = normalize_allocatable(next);
    if exists|k: int| is_first_free(ids, start, k) {
        let k = choose|k: int| is_first_free(ids, start, k);
        lemma_candidate_cycle(start, k as nat);
    } else {
        assert forall|raw: u64| is_allocatable(raw) implies ids.contains(raw) by {
            lemma_candidate_covers(start, raw);
            let k = choose|k: int| 0 <= k < id_space() && #[trigger] candidate(start, k as nat) == raw;
            if !ids.contains(raw) {
                lemma_first_free_exists(ids, start, k);
            }
        }
    }
    if forall|raw: u64| is_allocatable(raw) ==> ids.contains(raw) {
        if exists|k: int| is_first_free(ids, start, k) {
            let k = choose|k: int| is_first_free(ids, start, k);
            lemma_candidate_cycle(start, k as nat);
        }
    }
}

/// Where some try below `k` finds a free id, there is a first one.
proof fn lemma_first_free_exists(ids: Set<u64>, start: u64, k: int)
    requires
        0 <= k < id_space(),
        !ids.contains(candidate(start, k as nat)),
    ensures
        exists|f: int| is_first_free(ids, start, f),
    decreases k,
{
    if forall|j: int| 0 <= j < k ==> ids.contains(#[trigger] candidate(start, j as nat)) {
        assert(is_first_free(ids, start, k));
    } else {
        let j = choose|j: int| 0 <= j < k && !ids.contains(#[trigger] candidate(start, j as nat));
        lemma_first_free_exists(ids, start, j);
    }
}

/// The first free try is unique.
proof fn lemma_first_free_unique(ids: Set<u64>, start: u64, a: int, b: int)
    requires
        is_first_free(ids, start, a),
        is_first_free(ids, start, b),
    ensures
        a == b,
{
    if a < b {
        assert(ids.contains(candidate(start, a as nat)));
    } else if b < a {
        assert(ids.contains(candidate(start, b as nat)));
    }
}

fn normalize(raw: u64) -> (start: u64)
    ensures
        start == normalize_allocatable(raw),
{
    if raw == 0 || raw == u64::MAX {
        1
    } else {
        raw
    }
}

fn advance(raw: u64) -> (next: u64)
    ensures
        next == next_allocatable_after(raw),
{
    if raw >= u64::MAX - 1 {
        1
    } else {
        raw + 1
    }
}

/// Whether the list holds the id.
fn has_raw_id(ids: &Vec<u64>, raw: u64) -> (found: bool)
    ensures
        found == ids@.contains(raw),
{
    let mut i: usize = 0;
    while i < ids.len()
        invariant
            i <= ids@.len(),
            forall|j: int| 0 <= j < i ==> ids@[j] != raw,
        decreases ids@.len() - i,
    {
        if ids[i] == raw {
            assert(ids@[i as int] == raw);
            return true;
        }
        i = i + 1;
    }
    false
}

/// Allocates an id for a world holding `ids` whose next id is `next`.
fn allocate(ids: &Vec<u64>, next: u64) -> (allocated: Option<u64>)
    ensures
        allocated == spec_allocate(ids@.to_set(), next),
{
    let ghost set = ids@.to_set();
    let start = normalize(next);
    let mut current = start;
    let ghost mut k: nat = 0;
    assert(is_allocatable(start));
    loop
        invariant
            is_allocatable(start),
            start == normalize_allocatable(next),
            set == ids@.to_set(),
            k < id_space(),
            current == candidate(start, k),
            forall|j: int| 0 <= j < k ==> set.contains(#[trigger] candidate(start, j as nat)),
        decreases id_space() - k,
    {
        if !has_raw_id(ids, current) {
            proof {
                assert(!set.contains(current));
                assert(is_first_free(set, start, k as int));
                let f = choose|f: int| is_first_free(set, start, f);
                lemma_first_free_unique(set, start, k as int, f);
            }
            return Some(current);
        }
        proof {
            assert(set.contains(current));
        }
        current = advance(current);
        proof {
            k = k + 1;
            lemma_candidate_cycle(start, k);
        }
        if current == start {
            proof {
                assert(k == id_space());
                if exists|f: int| is_first_free(set, start, f) {
                    let f = choose|f: int| is_first_free(set, start, f);
                    assert(set.contains(candidate(start, f as nat)));
                }
            }
            return None;
        }
    }
}

/// What a world holds: its next id and its records by id.
pub struct WorldView<R> {
    pub next_entity: u64,
    pub records: Map<u64, R>,
}

/// Whether the entries' ids are strictly increasing.
pub open spec fn ids_sorted<R>(entries: Seq<(EntityId, R)>) -> bool {
    forall|i: int, j: int| 0 <= i < j < entries.len() ==> (#[trigger] entries[i]).0@ < (#[trigger] entries[j]).0@
}

/// Whether some entry has the id.
pub open spec fn has_entry<R>(entries: Seq<(EntityId, R)>, raw: u64) -> bool {
    exists|i: int| 0 <= i < entries.len() && #[trigger] entries[i].0@ == raw
}

/// The records by id.
pub open spec fn records_of<R>(entries: Seq<(EntityId, R)>) -> Map<u64, R> {
    Map::new(
        |raw: u64| has_entry(entries, raw),
        |raw: u64| entries[choose|i: int| 0 <= i < entries.len() && #[trigger] entries[i].0@ == raw].1,
    )
}

proof fn lemma_records_at<R>(entries: Seq<(EntityId, R)>, i: int)
    requires
        ids_sorted(entries),
        0 <= i < entries.len(),
    ensures
        records_of(entries).contains_key(entries[i].0@),
        records_of(entries)[entries[i].0@] == entries[i].1,
{
    let raw = entries[i].0@;
    assert(has_entry(entries, raw));
    let j = choose|j: int| 0 <= j < entries.len() && #[trigger] entries[j].0@ == raw;
    if j < i {
        assert(entries[j].0@ < entries[i].0@);
    } else if j > i {
        assert(entries[i].0@ < entries[j].0@);
    }
}

/// Records stored under entity ids, with an id allocator.
#[derive(Debug)]
pub struct World<R> {
    next_entity: u64,
    entities: Vec<(EntityId, R)>,
}

impl<R> View for World<R> {
    type V = WorldView<R>;

    closed spec fn view(&self) -> WorldView<R> {
        WorldView { next_entity: self.next_entity, records: records_of(self.entities@) }
    }
}

impl<R> World<R> {
    #[verifier::type_invariant]
    spec fn sorted(&self) -> bool {
        ids_sorted(self.entities@)
    }

    /// An empty world whose first spawned entity gets id 1.
    pub fn new() -> (world: World<R>)
        ensures
            world@.next_entity == 1,
            world@.records == Map::<u64, R>::empty(),
    {
        let world = World { next_entity: 1, entities: Vec::new() };
        assert(world@.records =~= Map::<u64, R>::empty());
        world
    }

    /// The ids in use.
    fn raw_ids(&self) -> (ids: Vec<u64>)
        ensures
            ids@.to_set() == self@.records.dom(),
            ids@.len() == self.entities@.len(),
            forall|i: int| 0 <= i < ids@.len() ==> ids@[i] == self.entities@[i].0@,
    {
        let mut ids: Vec<u64> = Vec::new();
        let mut i: usize = 0;
        while i < self.entities.len()
            invariant
                i <= self.entities@.len(),
                ids@.len() == i,
                forall|j: int| 0 <= j < i ==> ids@[j] == self.entities@[j].0@,
            decreases self.entities@.len() - i,
        {
            ids.push(self.entities[i].0.raw());
            i = i + 1;
        }
        proof {
            assert forall|raw: u64| ids@.to_set().contains(raw) <==> self@.records.dom().contains(raw) by {
                if ids@.contains(raw) {
                    let k = choose|k: int| 0 <= k < ids@.len() && ids@[k] == raw;
                    assert(self.entities@[k].0@ == raw);
                }
                if has_entry(self.entities@, raw) {
                    let k = choose|k: int| 0 <= k < self.entities@.len() && #[trigger] self.entities@[k].0@ == raw;
                    assert(ids@[k] == raw);
                }
            }
            assert(ids@.to_set() =~= self@.records.dom());
        }
        ids
    }

    /// The index of the entry with the id, or where it would go.
    fn position(&self, raw: u64) -> (index: usize)
        ensures
            index <= self.entities@.len(),
            forall|j: int| 0 <= j < index ==> (#[trigger] self.entities@[j]).0@ < raw,
            index < self.entities@.len() ==> self.entities@[index as int].0@ >= raw,
    {
        let mut i: usize = 0;
        while i < self.entities.len()
            invariant
                i <= self.entities@.len(),
                forall|j: int| 0 <= j < i ==> (#[trigger] self.entities@[j]).0@ < raw,
            decreases self.entities@.len() - i,
        {
            if self.entities[i].0.raw() >= raw {
                return i;
            }
            i = i + 1;
        }
        i
    }

    /// The index of the entry with the id, if there is one.
    fn find(&self, raw: u64) -> (found: Option<usize>)
        ensures
            match found {
                Some(i) => i < self.entities@.len() && self.entities@[i as int].0@ == raw
                    && self@.records.contains_key(raw) && self@.records[raw] == self.entities@[i as int].1,
                None => !self@.records.contains_key(raw),
            },
    {
        proof {
            use_type_invariant(self);
        }
        let i = self.position(raw);
        if i < self.entities.len() && self.entities[i].0.raw() == raw {
            proof {
                lemma_records_at(self.entities@, i as int);
            }
            return Some(i);
        }
        proof {
            if has_entry(self.entities@, raw) {
                let j = choose|j: int| 0 <= j < self.entities@.len() && #[trigger] self.entities@[j].0@ == raw;
                if j > i {
                    assert(self.entities@[i as int].0@ < self.entities@[j].0@);
                }
            }
        }
        None
    }

    /// Stores a record under an id not in use, keeping the entries ordered.
    pub(crate) fn store(&mut self, raw: u64, record: R)
        requires
            !old(self)@.records.contains_key(raw),
        ensures
            final(self)@.records == old(self)@.records.insert(raw, record),
            final(self)@.next_entity == old(self)@.next_entity,
    {
        proof {
            use_type_invariant(&*self);
        }
        let i = self.position(raw);
        let mut entries = Vec::new();
        std::mem::swap(&mut entries, &mut self.entities);
        let ghost before = entries@;
        proof {
            if i < before.len() {
                assert(before[i as int].0@ != raw) by {
                    if before[i as int].0@ == raw {
                        assert(has_entry(before, raw));
                    }
                }
            }
        }
        entries.insert(i, (EntityId(raw), record));
        proof {
            let after = entries@;
            assert forall|a: int, b: int| 0 <= a < b < after.len() implies (#[trigger] after[a]).0@
                < (#[trigger] after[b]).0@ by {
                if b < i {
                    assert(before[a].0@ < before[b].0@);
                } else if b == i {
                    assert(before[a].0@ < raw);
                } else if a < i {
                    assert(before[a].0@ < raw);
                    if b - 1 > i {
                        assert(before[i as int].0@ < before[b - 1].0@);
                    }
                } else if a == i {
                    if b - 1 > i {
                        assert(before[i as int].0@ < before[b - 1].0@);
                    }
                } else {
                    assert(before[a - 1].0@ < before[b - 1].0@);
                }
            }
            let m = records_of(before).insert(raw, record);
            assert forall|k: u64| #[trigger] records_of(after).contains_key(k) <==> m.contains_key(k) by {
                if has_entry(before, k) {
                    let j = choose|j: int| 0 <= j < before.len() && #[trigger] before[j].0@ == k;
                    if j < i {
                        assert(after[j].0@ == k);
                    } else {
                        assert(after[j + 1].0@ == k);
                    }
                }
                if k == raw {
                    assert(after[i as int].0@ == k);
                }
                if has_entry(after, k) {
                    let j = choose|j: int| 0 <= j < after.len() && #[trigger] after[j].0@ == k;
                    if j < i {
                        assert(before[j].0@ == k);
                    } else if j > i {
                        assert(before[j - 1].0@ == k);
                    }
                }
            }
            assert forall|k: u64| #[trigger] records_of(after).contains_key(k) implies records_of(after)[k]
                == m[k] by {
                let j = choose|j: int| 0 <= j < after.len() && #[trigger] after[j].0@ == k;
                lemma_records_at(after, j);
                if j < i {
                    assert(after[j] == before[j]);
                    assert(k != raw);
                    lemma_records_at(before, j);
                } else if j > i {
                    assert(after[j] == before[j - 1]);
                    assert(k != raw) by {
                        if k == raw {
                            assert(has_entry(before, raw));
                        }
                    }
                    lemma_records_at(before, j - 1);
                }
            }
            assert(records_of(after) =~= m);
        }
        self.entities = entries;
    }

    /// Spawns a record under the next free id, trying upwards from the
    /// allocator's position and wrapping around before the reserved maximum
    /// id; the allocator then moves past the new id. Where every id is in use
    /// the world is left unchanged.
    pub fn try_spawn(&mut self, record: R) -> (result: Result<EntityId, WorldError>)
        ensures
            match spec_allocate(old(self)@.records.dom(), old(self)@.next_entity) {
                Some(raw) => result matches Ok(entity) && entity@ == raw
                    && final(self)@.records == old(self)@.records.insert(raw, record)
                    && final(self)@.next_entity == next_allocatable_after(raw),
                None => result matches Err(WorldError::EntityIdOverflow(entity)) && entity@
                    == u64::MAX && final(self)@ == old(self)@,
            },
    {
        let ids = self.raw_ids();
        match allocate(&ids, self.next_entity) {
            Some(raw) => {
                proof {
                    lemma_allocate_none_iff_full(self@.records.dom(), self.next_entity);
                }
                self.store(raw, record);
                proof {
                    use_type_invariant(&*self);
                }
                self.next_entity = advance(raw);
                Ok(EntityId(raw))
            },
            None => Err(WorldError::EntityIdOverflow(EntityId(u64::MAX))),
        }
    }

    /// Spawns a record under the next free id. The world must have a free
    /// id.
    pub fn spawn(&mut self, record: R) -> (entity: EntityId)
        requires
            spec_allocate(old(self)@.records.dom(), old(self)@.next_entity) is Some,
        ensures
            spec_allocate(old(self)@.records.dom(), old(self)@.next_entity) == Some(entity@),
            final(self)@.records == old(self)@.records.insert(entity@, record),
            final(self)@.next_entity == next_allocatable_after(entity@),
    {
        match self.try_spawn(record) {
            Ok(entity) => entity,
            Err(_) => {
                assert(false);
                EntityId(0)
            },
        }
    }

    /// Stores a record under an explicit id. The reserved maximum id and ids
    /// in use are refused; an id at or past the allocator's position moves
    /// the allocator past it.
    pub fn insert(&mut self, entity: EntityId, record: R) -> (result: Result<(), WorldError>)
        ensures
            entity@ == u64::MAX ==> result == Err::<(), WorldError>(WorldError::EntityIdOverflow(entity))
                && final(self)@ == old(self)@,
            entity@ != u64::MAX && old(self)@.records.contains_key(entity@) ==> result == Err::<
                (),
                WorldError,
            >(WorldError::DuplicateEntityId(entity)) && final(self)@ == old(self)@,
            entity@ != u64::MAX && !old(self)@.records.contains_key(entity@) ==> result is Ok
                && final(self)@.records == old(self)@.records.insert(entity@, record)
                && final(self)@.next_entity == if entity@ >= old(self)@.next_entity {
                next_allocatable_after(entity@)
            } else {
                old(self)@.next_entity
            },
    {
        let raw = entity.raw();
        if raw == u64::MAX {
            return Err(WorldError::EntityIdOverflow(entity));
        }
        if self.find(raw).is_some() {
            return Err(WorldError::DuplicateEntityId(entity));
        }
        proof {
            use_type_invariant(&*self);
        }
        if raw >= self.next_entity {
            self.next_entity = advance(raw);
        }
        self.store(raw, record);
        Ok(())
    }

    /// The record of the entity.
    pub fn entity(&self, entity: EntityId) -> (record: Option<&R>)
        ensures
            match record {
                Some(r) => self@.records.contains_key(entity@) && *r == self@.records[entity@],
                None => !self@.records.contains_key(entity@),
            },
    {
        match self.find(entity.raw()) {
            Some(i) => Some(&self.entities[i].1),
            None => None,
        }
    }

    /// Whether the entity exists.
    pub fn contains(&self, entity: EntityId) -> (present: bool)
        ensures
            present == self@.records.contains_key(entity@),
    {
        self.find(entity.raw()).is_some()
    }

    /// The ids in use, in increasing order.
    pub fn entity_ids(&self) -> (ids: Vec<EntityId>)
        ensures
            forall|i: int, j: int| 0 <= i < j < ids@.len() ==> (#[trigger] ids@[i])@ < (#[trigger] ids@[j])@,
            forall|raw: u64| self@.records.contains_key(raw) <==> exists|i: int| 0 <= i < ids@.len() && (#[trigger] ids@[i])@ == raw,
    {
        proof {
            use_type_invariant(self);
        }
        let mut ids: Vec<EntityId> = Vec::new();
        let mut i: usize = 0;
        while i < self.entities.len()
            invariant
                i <= self.entities@.len(),
                ids_sorted(self.entities@),
                ids@.len() == i,
                forall|j: int| 0 <= j < i ==> (#[trigger] ids@[j]) == self.entities@[j].0,
            decreases self.entities@.len() - i,
        {
            ids.push(self.entities[i].0);
            i = i + 1;
        }
        proof {
            assert forall|a: int, b: int| 0 <= a < b < ids@.len() implies (#[trigger] ids@[a])@ < (#[trigger] ids@[b])@ by {
                assert(self.entities@[a].0@ < self.entities@[b].0@);
            }
            assert forall|raw: u64| self@.records.contains_key(raw) <==> exists|k: int| 0 <= k < ids@.len() && (#[trigger] ids@[k])@ == raw by {
                if has_entry(self.entities@, raw) {
                    let k = choose|k: int| 0 <= k < self.entities@.len() && #[trigger] self.entities@[k].0@ == raw;
                    assert(ids@[k]@ == raw);
                }
                if exists|k: int| 0 <= k < ids@.len() && (#[trigger] ids@[k])@ == raw {
                    let k = choose|k: int| 0 <= k < ids@.len() && (#[trigger] ids@[k])@ == raw;
                    assert(self.entities@[k].0@ == raw);
                }
            }
        }
        ids
    }

    /// The entities whose records `matches` accepts, in increasing id order:
    /// every listed entity's record was accepted, and every other entity's
    /// record was refused.
    pub fn entities_matching<F: Fn(&R) -> bool>(&self, matches: F) -> (ids: Vec<EntityId>)
        requires
            forall|record: &R| call_requires(matches, (record,)),
        ensures
            forall|i: int, j: int| 0 <= i < j < ids@.len() ==> (#[trigger] ids@[i])@ < (#[trigger] ids@[j])@,
            forall|i: int|
                0 <= i < ids@.len() ==> self@.records.contains_key((#[trigger] ids@[i])@) && call_ensures(
                    matches,
                    (&self@.records[ids@[i]@],),
                    true,
                ),
            forall|raw: u64|
                #[trigger] self@.records.contains_key(raw) && !(exists|i: int| 0 <= i < ids@.len() && ids@[i]@ == raw)
                    ==> call_ensures(matches, (&self@.records[raw],), false),
    {
        proof {
            use_type_invariant(self);
        }
        let mut ids: Vec<EntityId> = Vec::new();
        let mut i: usize = 0;
        while i < self.entities.len()
            invariant
                i <= self.entities@.len(),
                ids_sorted(self.entities@),
                forall|record: &R| call_requires(matches, (record,)),
                forall|a: int, b: int| 0 <= a < b < ids@.len() ==> (#[trigger] ids@[a])@ < (#[trigger] ids@[b])@,
                forall|a: int| 0 <= a < ids@.len() ==> exists|k: int| 0 <= k < i && self.entities@[k].0 == #[trigger] ids@[a]
                    && call_ensures(matches, (&self.entities@[k].1,), true),
                forall|a: int| 0 <= a < ids@.len() && i < self.entities@.len() ==> (#[trigger] ids@[a])@ < self.entities@[i as int].0@,
                forall|k: int|
                    0 <= k < i && !(exists|a: int| 0 <= a < ids@.len() && ids@[a] == #[trigger] self.entities@[k].0)
                        ==> call_ensures(matches, (&self.entities@[k].1,), false),
            decreases self.entities@.len() - i,
        {
            let accepted = matches(&self.entities[i].1);
            let ghost before = ids@;
            if accepted {
                ids.push(self.entities[i].0);
                proof {
                    assert(ids@[before.len() as int] == self.entities@[i as int].0);
                }
            }
            proof {
                assert forall|a: int| 0 <= a < ids@.len() && i + 1 < self.entities@.len() implies (#[trigger] ids@[a])@
                    < self.entities@[i + 1].0@ by {
                    assert(self.entities@[i as int].0@ < self.entities@[i + 1].0@);
                    if a < before.len() {
                        assert(ids@[a] == before[a]);
                    }
                }
                assert forall|a: int| 0 <= a < ids@.len() implies exists|k: int| 0 <= k < i + 1 && self.entities@[k].0
                    == #[trigger] ids@[a] && call_ensures(matches, (&self.entities@[k].1,), true) by {
                    if a < before.len() {
                        assert(ids@[a] == before[a]);
                    } else {
                        assert(self.entities@[i as int].0 == ids@[a]);
                    }
                }
                assert forall|k: int|
                    0 <= k < i + 1 && !(exists|a: int| 0 <= a < ids@.len() && ids@[a] == #[trigger] self.entities@[k].0)
                        implies call_ensures(matches, (&self.entities@[k].1,), false) by {
                    if k < i {
                        if exists|a: int| 0 <= a < before.len() && before[a] == self.entities@[k].0 {
                            let a = choose|a: int| 0 <= a < before.len() && before[a] == self.entities@[k].0;
                            assert(ids@[a] == before[a]);
                        }
                    } else if accepted {
                        assert(ids@[before.len() as int] == self.entities@[k].0);
                    }
                }
            }
            i = i + 1;
        }
        proof {
            assert forall|a: int| 0 <= a < ids@.len() implies self@.records.contains_key((#[trigger] ids@[a])@)
                && call_ensures(matches, (&self@.records[ids@[a]@],), true) by {
                let k = choose|k: int| 0 <= k < i && self.entities@[k].0 == #[trigger] ids@[a] && call_ensures(
                    matches,
                    (&self.entities@[k].1,),
                    true,
                );
                lemma_records_at(self.entities@, k);
            }
            assert forall|raw: u64|
                #[trigger] self@.records.contains_key(raw) && !(exists|a: int| 0 <= a < ids@.len() && ids@[a]@ == raw)
                    implies call_ensures(matches, (&self@.records[raw],), false) by {
                let k = choose|k: int| 0 <= k < self.entities@.len() && #[trigger] self.entities@[k].0@ == raw;
                lemma_records_at(self.entities@, k);
                if exists|a: int| 0 <= a < ids@.len() && ids@[a] == self.entities@[k].0 {
                    let a = choose|a: int| 0 <= a < ids@.len() && ids@[a] == self.entities@[k].0;
                    assert(ids@[a]@ == raw);
                }
            }
        }
        ids
    }

    /// The number of entities.
    pub fn len(&self) -> (count: usize)
        ensures
            count == self@.records.len(),
    {
        proof {
            use_type_invariant(self);
            lemma_records_len(self.entities@);
        }
        self.entities.len()
    }
}

proof fn lemma_records_len<R>(entries: Seq<(EntityId, R)>)
    requires
        ids_sorted(entries),
    ensures
        records_of(entries).dom().finite(),
        records_of(entries).len() == entries.len(),
    decreases entries.len(),
{
    if entries.len() == 0 {
        assert(records_of(entries).dom() =~= Set::<u64>::empty());
    } else {
        let rest = entries.drop_last();
        assert forall|a: int, b: int| 0 <= a < b < rest.len() implies (#[trigger] rest[a]).0@ < (#[trigger] rest[b]).0@ by {
            assert(entries[a].0@ < entries[b].0@);
        }
        lemma_records_len(rest);
        let last = entries.last().0@;
        assert(!records_of(rest).dom().contains(last)) by {
            if has_entry(rest, last) {
                let j = choose|j: int| 0 <= j < rest.len() && #[trigger] rest[j].0@ == last;
                assert(entries[j].0@ < entries[entries.len() - 1].0@);
            }
        }
        assert forall|k: u64| records_of(entries).dom().contains(k) <==> records_of(rest).dom().insert(last).contains(k) by {
            if has_entry(entries, k) && k != last {
                let j = choose|j: int| 0 <= j < entries.len() && #[trigger] entries[j].0@ == k;
                assert(j != entries.len() - 1);
                assert(rest[j].0@ == k);
            }
            if has_entry(rest, k) {
                let j = choose|j: int| 0 <= j < rest.len() && #[trigger] rest[j].0@ == k;
                assert(entries[j].0@ == k);
            }
            if k == last {
                assert(entries[entries.len() - 1].0@ == k);
            }
        }
        assert(records_of(entries).dom() =~= records_of(rest).dom().insert(last));
    }
}

/// An entity ready to load: the id its scene gives it, if any, and its record.
#[derive(Debug)]
pub struct ResolvedEntity<R> {
    pub id: Option<EntityId>,
    pub prefab: Option<String>,
    pub record: R,
}

/// The ids that the entities ask for.
pub open spec fn wanted_ids<R>(entities: Seq<ResolvedEntity<R>>) -> Seq<Option<u64>> {
    entities.map_values(|entity: ResolvedEntity<R>| match entity.id {
        Some(id) => Some(id@),
        None => None,
    })
}

/// The records of the entities.
pub open spec fn records_in<R>(entities: Seq<ResolvedEntity<R>>) -> Seq<R> {
    entities.map_values(|entity: ResolvedEntity<R>| entity.record)
}

/// The ids that loading entities asking for `wanted` into a world holding
/// `ids` with next id `next` gives them, in order, with the allocator's next
/// id afterwards: an explicit id is kept, and refused where it is the
/// reserved maximum or in use; an entity without one gets the next free id.
pub open spec fn spec_plan(ids: Set<u64>, next: u64, wanted: Seq<Option<u64>>) -> Result<
    (Seq<u64>, u64),
    WorldErrorView,
>
    decreases wanted.len(),
{
    if wanted.len() == 0 {
        Ok((seq![], next))
    } else {
        let step: Result<(u64, u64), WorldErrorView> = match wanted[0] {
            Some(raw) => if raw == u64::MAX {
                Err(WorldErrorView::EntityIdOverflow(raw))
            } else if ids.contains(raw) {
                Err(WorldErrorView::DuplicateEntityId(raw))
            } else {
                Ok(
                    (
                        raw,
                        if raw >= next {
                            next_allocatable_after(raw)
                        } else {
                            next
                        },
                    ),
                )
            },
            None => match spec_allocate(ids, next) {
                Some(raw) => Ok((raw, next_allocatable_after(raw))),
                None => Err(WorldErrorView::EntityIdOverflow(u64::MAX as u64)),
            },
        };
        match step {
            Err(error) => Err(error),
            Ok((raw, after)) => match spec_plan(ids.insert(raw), after, wanted.drop_first()) {
                Ok((rest, last)) => Ok((seq![raw] + rest, last)),
                Err(error) => Err(error),
            },
        }
    }
}

/// The records with each record stored under its planned id.
pub open spec fn spec_commit<R>(records: Map<u64, R>, planned: Seq<u64>, new_records: Seq<R>) -> Map<
    u64,
    R,
>
    decreases planned.len(),
{
    if planned.len() == 0 || new_records.len() == 0 {
        records
    } else {
        spec_commit(records, planned.drop_last(), new_records.drop_last()).insert(
            planned.last(),
            new_records.last(),
        )
    }
}

/// Loading keeps every explicit id, and gives every entity an id that was
/// free and that no other entity of the load gets.
pub proof fn lemma_plan_keeps_explicit_ids(ids: Set<u64>, next: u64, wanted: Seq<Option<u64>>)
    requires
        spec_plan(ids, next, wanted) is Ok,
    ensures
        ({
            let planned = spec_plan(ids, next, wanted)->Ok_0.0;
            &&& planned.len() == wanted.len()
            &&& forall|k: int| 0 <= k < wanted.len() && #[trigger] wanted[k] is Some ==> planned[k] == wanted[k]->0
            &&& forall|k: int| 0 <= k < planned.len() ==> !ids.contains(#[trigger] planned[k])
            &&& forall|a: int, b: int| 0 <= a < b < planned.len() ==> #[trigger] planned[a] != #[trigger] planned[b]
        }),
    decreases wanted.len(),
{
    if wanted.len() > 0 {
        let raw = match wanted[0] {
            Some(raw) => raw,
            None => {
                let start = normalize_allocatable(next);
                let k = choose|k: int| is_first_free(ids, start, k);
                candidate(start, k as nat)
            },
        };
        let after = match wanted[0] {
            Some(raw) => if raw >= next {
                next_allocatable_after(raw)
            } else {
                next
            },
            None => next_allocatable_after(raw),
        };
        assert(!ids.contains(raw));
        lemma_plan_keeps_explicit_ids(ids.insert(raw), after, wanted.drop_first());
        let rest = spec_plan(ids.insert(raw), after, wanted.drop_first())->Ok_0.0;
        let planned = spec_plan(ids, next, wanted)->Ok_0.0;
        assert(planned == seq![raw] + rest);
        assert forall|k: int| 0 <= k < wanted.len() && #[trigger] wanted[k] is Some implies planned[k] == wanted[k]->0 by {
            if k > 0 {
                assert(wanted.drop_first()[k - 1] == wanted[k]);
            }
        }
        assert forall|k: int| 0 <= k < planned.len() implies !ids.contains(#[trigger] planned[k]) by {
            if k > 0 {
                assert(planned[k] == rest[k - 1]);
            }
        }
        assert forall|a: int, b: int| 0 <= a < b < planned.len() implies #[trigger] planned[a] != #[trigger] planned[b] by {
            if a == 0 {
                assert(planned[b] == rest[b - 1]);
                assert(!ids.insert(raw).contains(rest[b - 1]));
            } else {
                assert(planned[a] == rest[a - 1]);
                assert(planned[b] == rest[b - 1]);
            }
        }
    }
}

/// Loading entities that all bring ids below the top of the range moves the
/// allocator past every one of them, and never back.
pub proof fn lemma_plan_advances_past_explicit_ids(ids: Set<u64>, next: u64, wanted: Seq<Option<u64>>)
    requires
        spec_plan(ids, next, wanted) is Ok,
        forall|k: int| 0 <= k < wanted.len() ==> (#[trigger] wanted[k]) is Some && wanted[k]->0 < u64::MAX - 1,
    ensures
        ({
            let (planned, last) = spec_plan(ids, next, wanted)->Ok_0;
            &&& next <= last
            &&& forall|k: int| 0 <= k < planned.len() ==> #[trigger] planned[k] < last
        }),
    decreases wanted.len(),
{
    if wanted.len() > 0 {
        let raw = wanted[0]->0;
        let after = if raw >= next {
            next_allocatable_after(raw)
        } else {
            next
        };
        assert forall|k: int| 0 <= k < wanted.drop_first().len() implies (#[trigger] wanted.drop_first()[k]) is Some
            && wanted.drop_first()[k]->0 < u64::MAX - 1 by {
            assert(wanted.drop_first()[k] == wanted[k + 1]);
        }
        lemma_plan_advances_past_explicit_ids(ids.insert(raw), after, wanted.drop_first());
        let (rest, last) = spec_plan(ids.insert(raw), after, wanted.drop_first())->Ok_0;
        let planned = spec_plan(ids, next, wanted)->Ok_0.0;
        assert(planned == seq![raw] + rest);
        assert forall|k: int| 0 <= k < planned.len() implies #[trigger] planned[k] < last by {
            if k > 0 {
                assert(planned[k] == rest[k - 1]);
            }
        }
    }
}

/// What refuses a load: an overflow always names the reserved maximum id;
/// a duplicate names an explicit id of one of the entities; an explicit id
/// that the world already holds, the reserved maximum id, or an explicit id
/// that two entities of the load share, always refuses the load.
pub proof fn lemma_plan_errors(ids: Set<u64>, next: u64, wanted: Seq<Option<u64>>)
    ensures
        spec_plan(ids, next, wanted) matches Err(WorldErrorView::EntityIdOverflow(raw)) ==> raw == u64::MAX,
        spec_plan(ids, next, wanted) matches Err(WorldErrorView::DuplicateEntityId(raw)) ==> exists|k: int|
            0 <= k < wanted.len() && #[trigger] wanted[k] == Some(raw),
        (exists|k: int| 0 <= k < wanted.len() && (#[trigger] wanted[k] matches Some(raw) && (ids.contains(raw)
            || raw == u64::MAX))) ==> spec_plan(ids, next, wanted) is Err,
        (exists|j: int, k: int| 0 <= j < k < wanted.len() && #[trigger] wanted[j] is Some && #[trigger] wanted[k]
            == wanted[j]) ==> spec_plan(ids, next, wanted) is Err,
    decreases wanted.len(),
{
    if wanted.len() > 0 {
        let rest_wanted = wanted.drop_first();
        let step: Result<(u64, u64), WorldErrorView> = match wanted[0] {
            Some(raw) => if raw == u64::MAX {
                Err(WorldErrorView::EntityIdOverflow(raw))
            } else if ids.contains(raw) {
                Err(WorldErrorView::DuplicateEntityId(raw))
            } else {
                Ok((raw, if raw >= next { next_allocatable_after(raw) } else { next }))
            },
            None => match spec_allocate(ids, next) {
                Some(raw) => Ok((raw, next_allocatable_after(raw))),
                None => Err(WorldErrorView::EntityIdOverflow(u64::MAX as u64)),
            },
        };
        if let Ok((raw, after)) = step {
            lemma_plan_errors(ids.insert(raw), after, rest_wanted);
            if let Err(WorldErrorView::DuplicateEntityId(d)) = spec_plan(ids, next, wanted) {
                let k = choose|k: int| 0 <= k < rest_wanted.len() && #[trigger] rest_wanted[k] == Some(d);
                assert(wanted[k + 1] == Some(d));
            }
            if exists|k: int| 0 <= k < wanted.len() && (#[trigger] wanted[k] matches Some(r) && (ids.contains(r)
                || r == u64::MAX)) {
                let k = choose|k: int| 0 <= k < wanted.len() && (#[trigger] wanted[k] matches Some(r) && (ids.contains(
                    r,
                ) || r == u64::MAX));
                assert(k > 0);
                assert(rest_wanted[k - 1] == wanted[k]);
            }
            if exists|j: int, k: int| 0 <= j < k < wanted.len() && #[trigger] wanted[j] is Some && #[trigger] wanted[k]
                == wanted[j] {
                let (j, k) = choose|j: int, k: int| 0 <= j < k < wanted.len() && #[trigger] wanted[j] is Some
                    && #[trigger] wanted[k] == wanted[j];
                if j == 0 {
                    assert(rest_wanted[k - 1] == wanted[k]);
                    assert(ids.insert(raw).contains(wanted[k]->0));
                } else {
                    assert(rest_wanted[j - 1] == wanted[j]);
                    assert(rest_wanted[k - 1] == wanted[k]);
                }
            }
        } else {
            if let Err(WorldErrorView::DuplicateEntityId(d)) = spec_plan(ids, next, wanted) {
                assert(wanted[0] == Some(d));
            }
        }
    }
}

/// A load whose entities all bring explicit ids, distinct from each other,
/// free in the world and below the reserved maximum, is accepted.
pub proof fn lemma_plan_accepts_fresh_explicit_ids(ids: Set<u64>, next: u64, wanted: Seq<Option<u64>>)
    requires
        forall|k: int| 0 <= k < wanted.len() ==> (#[trigger] wanted[k] matches Some(raw) && !ids.contains(raw)
            && raw != u64::MAX),
        forall|j: int, k: int| 0 <= j < k < wanted.len() ==> #[trigger] wanted[j] != #[trigger] wanted[k],
    ensures
        spec_plan(ids, next, wanted) is Ok,
    decreases wanted.len(),
{
    if wanted.len() > 0 {
        let raw = wanted[0]->0;
        let after = if raw >= next { next_allocatable_after(raw) } else { next };
        let rest = wanted.drop_first();
        assert forall|k: int| 0 <= k < rest.len() implies (#[trigger] rest[k] matches Some(r) && !ids.insert(raw).contains(r)
            && r != u64::MAX) by {
            assert(rest[k] == wanted[k + 1]);
            assert(wanted[0] != wanted[k + 1]);
        }
        assert forall|j: int, k: int| 0 <= j < k < rest.len() implies #[trigger] rest[j] != #[trigger] rest[k] by {
            assert(rest[j] == wanted[j + 1]);
            assert(rest[k] == wanted[k + 1]);
        }
        lemma_plan_accepts_fresh_explicit_ids(ids.insert(raw), after, rest);
    }
}

/// A load whose entities all bring explicit ids below the reserved maximum
/// is refused only for a duplicate: the error names an id that the world
/// already holds or that two entities of the load share, and its message is
/// "duplicate entity id " followed by that id.
pub proof fn lemma_explicit_ids_refused_as_duplicates(ids: Set<u64>, next: u64, wanted: Seq<Option<u64>>)
    requires
        forall|k: int| 0 <= k < wanted.len() ==> (#[trigger] wanted[k] matches Some(raw) && raw != u64::MAX),
    ensures
        spec_plan(ids, next, wanted) matches Err(error) ==> (error matches WorldErrorView::DuplicateEntityId(raw)
            && (ids.contains(raw) || exists|j: int, k: int|
            0 <= j < k < wanted.len() && #[trigger] wanted[j] == Some(raw) && #[trigger] wanted[k] == Some(raw))
            && spec_world_error_message(error) == "duplicate entity id "@ + spec_decimal(raw as nat)),
    decreases wanted.len(),
{
    if wanted.len() > 0 {
        assert(wanted[0] is Some);
        let first = wanted[0]->0;
        if !ids.contains(first) {
            let after = if first >= next {
                next_allocatable_after(first)
            } else {
                next
            };
            let rest = wanted.drop_first();
            assert forall|k: int| 0 <= k < rest.len() implies (#[trigger] rest[k] matches Some(raw) && raw
                != u64::MAX) by {
                assert(rest[k] == wanted[k + 1]);
            }
            lemma_explicit_ids_refused_as_duplicates(ids.insert(first), after, rest);
            lemma_plan_errors(ids.insert(first), after, rest);
            if let Err(WorldErrorView::DuplicateEntityId(d)) = spec_plan(ids, next, wanted) {
                assert(spec_plan(ids.insert(first), after, rest) == Err::<(Seq<u64>, u64), WorldErrorView>(
                    WorldErrorView::DuplicateEntityId(d),
                ));
                if ids.contains(d) {
                } else if d == first {
                    let k = choose|k: int| 0 <= k < rest.len() && #[trigger] rest[k] == Some(d);
                    assert(wanted[0] == Some(d));
                    assert(wanted[k + 1] == Some(d));
                } else {
                    let (j, k) = choose|j: int, k: int|
                        0 <= j < k < rest.len() && #[trigger] rest[j] == Some(d) && #[trigger] rest[k] == Some(d);
                    assert(wanted[j + 1] == Some(d));
                    assert(wanted[k + 1] == Some(d));
                }
            }
        }
    }
}

/// Entity `k` is the first that a load refuses, with `error`: the entities
/// before it are planned, and its explicit id is the reserved maximum (an
/// overflow naming it), or is held by the world or planned for an earlier
/// entity (a duplicate naming it); or it has no explicit id and the
/// allocator is full (an overflow naming the maximum).
pub open spec fn spec_refused_at(ids: Set<u64>, next: u64, wanted: Seq<Option<u64>>, k: int, error: WorldErrorView) -> bool {
    &&& 0 <= k < wanted.len()
    &&& spec_plan(ids, next, wanted.take(k)) is Ok
    &&& match wanted[k] {
        Some(raw) => if raw == u64::MAX {
            error == WorldErrorView::EntityIdOverflow(raw)
        } else {
            &&& ids.contains(raw) || spec_plan(ids, next, wanted.take(k))->Ok_0.0.contains(raw)
            &&& error == WorldErrorView::DuplicateEntityId(raw)
        },
        None => error == WorldErrorView::EntityIdOverflow(u64::MAX as u64),
    }
}

/// A refused load is refused at its first failing entity: every entity
/// before it is planned, and the error is the one that entity's id gives,
/// as `spec_refused_at` says.
pub proof fn lemma_plan_refused_at_first_failure(ids: Set<u64>, next: u64, wanted: Seq<Option<u64>>)
    ensures
        spec_plan(ids, next, wanted) matches Err(error) ==> exists|k: int|
            #[trigger] spec_refused_at(ids, next, wanted, k, error),
    decreases wanted.len(),
{
    if wanted.len() > 0 {
        if let Err(error) = spec_plan(ids, next, wanted) {
            assert(wanted.take(0) =~= Seq::<Option<u64>>::empty());
            let step: Result<(u64, u64), WorldErrorView> = match wanted[0] {
                Some(raw) => if raw == u64::MAX {
                    Err(WorldErrorView::EntityIdOverflow(raw))
                } else if ids.contains(raw) {
                    Err(WorldErrorView::DuplicateEntityId(raw))
                } else {
                    Ok((raw, if raw >= next { next_allocatable_after(raw) } else { next }))
                },
                None => match spec_allocate(ids, next) {
                    Some(raw) => Ok((raw, next_allocatable_after(raw))),
                    None => Err(WorldErrorView::EntityIdOverflow(u64::MAX as u64)),
                },
            };
            match step {
                Err(e) => {
                    assert(e == error);
                    assert(spec_refused_at(ids, next, wanted, 0, error));
                },
                Ok((raw, after)) => {
                    let rest = wanted.drop_first();
                    lemma_plan_refused_at_first_failure(ids.insert(raw), after, rest);
                    let k = choose|k: int| #[trigger] spec_refused_at(ids.insert(raw), after, rest, k, error);
                    let prefix = wanted.take(k + 1);
                    assert(prefix[0] == wanted[0]);
                    assert(prefix.drop_first() =~= rest.take(k));
                    let (planned_rest, _) = spec_plan(ids.insert(raw), after, rest.take(k))->Ok_0;
                    let planned = spec_plan(ids, next, prefix)->Ok_0.0;
                    assert(planned == seq![raw] + planned_rest);
                    assert(wanted[k + 1] == rest[k]);
                    if let Some(r) = rest[k] {
                        if r != u64::MAX {
                            if r == raw {
                                assert(planned[0] == r);
                            } else if planned_rest.contains(r) {
                                let j = choose|j: int| 0 <= j < planned_rest.len() && planned_rest[j] == r;
                                assert(planned[j + 1] == r);
                            }
                        }
                    }
                    assert(spec_refused_at(ids, next, wanted, k + 1, error));
                },
            }
        }
    }
}

/// The numbers of the ids.
pub open spec fn raw_ids_of(ids: Seq<EntityId>) -> Seq<u64> {
    ids.map_values(|id: EntityId| id@)
}

impl<R> World<R> {
    /// Plans ids for entities loaded all together, with the allocator's next
    /// id afterwards, as `spec_plan` gives them.
    fn plan_raw(&self, entities: &Vec<ResolvedEntity<R>>) -> (result: Result<(Vec<u64>, u64), WorldError>)
        ensures
            match spec_plan(self@.records.dom(), self@.next_entity, wanted_ids(entities@)) {
                Ok((planned, next)) => result matches Ok((p, last)) && p@ == planned && last == next,
                Err(error) => result matches Err(e) && e@ == error,
            },
    {
        let ghost old_ids = self@.records.dom();
        let ghost old_next = self.next_entity;
        let ghost wanted = wanted_ids(entities@);
        let ghost plan = spec_plan(old_ids, old_next, wanted);
        let mut ids = self.raw_ids();
        let mut next = self.next_entity;
        let mut planned: Vec<u64> = Vec::new();
        let n = entities.len();
        let mut i: usize = 0;
        assert(wanted.skip(0) =~= wanted);
        while i < n
            invariant
                n == entities@.len(),
                wanted == wanted_ids(entities@),
                old_ids == self@.records.dom(),
                old_next == self@.next_entity,
                plan == spec_plan(old_ids, old_next, wanted),
                i <= n,
                planned@.len() == i,
                ids@.to_set() == old_ids + planned@.to_set(),
                forall|k: int| 0 <= k < planned@.len() ==> !old_ids.contains(#[trigger] planned@[k]),
                forall|a: int, b: int| 0 <= a < b < planned@.len() ==> #[trigger] planned@[a] != #[trigger] planned@[b],
                plan == match spec_plan(ids@.to_set(), next, wanted.skip(i as int)) {
                    Ok((rest, last)) => Ok((planned@ + rest, last)),
                    Err(error) => Err(error),
                },
            decreases n - i,
        {
            let ghost rest = wanted.skip(i as int);
            assert(rest[0] == wanted[i as int]);
            assert(rest.drop_first() =~= wanted.skip(i + 1));
            let ghost set = ids@.to_set();
            let raw = match entities[i].id {
                Some(entity) => {
                    let raw = entity.raw();
                    if raw == u64::MAX {
                        return Err(WorldError::EntityIdOverflow(entity));
                    }
                    if has_raw_id(&ids, raw) {
                        return Err(WorldError::DuplicateEntityId(entity));
                    }
                    if raw >= next {
                        next = advance(raw);
                    }
                    raw
                },
                None => match allocate(&ids, next) {
                    Some(raw) => {
                        proof {
                            lemma_allocate_none_iff_full(set, next);
                        }
                        next = advance(raw);
                        raw
                    },
                    None => {
                        return Err(WorldError::EntityIdOverflow(EntityId(u64::MAX)));
                    },
                },
            };
            let ghost planned_before = planned@;
            let ghost ids_before = ids@;
            ids.push(raw);
            planned.push(raw);
            proof {
                ids_before.lemma_push_to_set_commute(raw);
                planned_before.lemma_push_to_set_commute(raw);
                assert(ids@.to_set() =~= set.insert(raw));
                assert(planned@.to_set() =~= planned_before.to_set().insert(raw));
                assert(ids@.to_set() =~= old_ids + planned@.to_set());
                assert(!set.contains(raw));
                assert forall|a: int, b: int| 0 <= a < b < planned@.len() implies #[trigger] planned@[a] != #[trigger] planned@[b] by {
                    if b == i {
                        assert(set.contains(planned@[a]));
                    }
                }
                match spec_plan(ids@.to_set(), next, wanted.skip(i + 1)) {
                    Ok((r, last)) => {
                        assert(planned_before + (seq![raw] + r) =~= planned@ + r);
                    },
                    Err(error) => {},
                }
            }
            i = i + 1;
        }
        proof {
            assert(wanted.skip(n as int) =~= Seq::<Option<u64>>::empty());
            assert(planned@ + Seq::<u64>::empty() =~= planned@);
        }
        Ok((planned, next))
    }

    /// The ids that loading `entities` all together would give them, in
    /// order, or the error that would refuse the load; the world is not
    /// changed.
    pub fn plan_resolved(&self, entities: &Vec<ResolvedEntity<R>>) -> (result: Result<Vec<EntityId>, WorldError>)
        ensures
            match spec_plan(self@.records.dom(), self@.next_entity, wanted_ids(entities@)) {
                Ok((planned, _)) => result matches Ok(ids) && raw_ids_of(ids@) == planned,
                Err(error) => result matches Err(e) && e@ == error,
            },
    {
        let (planned, _) = match self.plan_raw(entities) {
            Ok(plan) => plan,
            Err(error) => return Err(error),
        };
        let mut ids: Vec<EntityId> = Vec::new();
        let mut i: usize = 0;
        while i < planned.len()
            invariant
                i <= planned@.len(),
                ids@.len() == i,
                forall|k: int| 0 <= k < i ==> (#[trigger] ids@[k])@ == planned@[k],
            decreases planned@.len() - i,
        {
            ids.push(EntityId(planned[i]));
            i = i + 1;
        }
        assert(raw_ids_of(ids@) =~= planned@);
        Ok(ids)
    }

    /// Loads entities all together: each keeps its explicit id or gets the
    /// next free one, in order. Where any entity is refused, nothing is
    /// loaded and the world is left as it was.
    pub fn load_resolved(&mut self, entities: Vec<ResolvedEntity<R>>) -> (result: Result<
        Vec<EntityId>,
        WorldError,
    >)
        ensures
            match spec_plan(
                old(self)@.records.dom(),
                old(self)@.next_entity,
                wanted_ids(entities@),
            ) {
                Ok((planned, next)) => result matches Ok(loaded) && raw_ids_of(loaded@) == planned
                    && final(self)@.next_entity == next && final(self)@.records == spec_commit(
                    old(self)@.records,
                    planned,
                    records_in(entities@),
                ),
                Err(error) => result matches Err(e) && e@ == error && final(self)@ == old(self)@,
            },
    {
        let ghost old_ids = self@.records.dom();
        let ghost old_next = self.next_entity;
        let ghost wanted = wanted_ids(entities@);
        let ghost records = records_in(entities@);
        let (planned, next) = match self.plan_raw(&entities) {
            Ok(plan) => plan,
            Err(error) => return Err(error),
        };
        let n = entities.len();
        proof {
            lemma_plan_keeps_explicit_ids(old_ids, old_next, wanted);
        }
        let mut pending = entities;
        let mut loaded: Vec<EntityId> = Vec::new();
        let mut j: usize = 0;
        let ghost start = self@.records;
        assert(planned@.take(0) =~= Seq::<u64>::empty());
        while j < n
            invariant
                n == planned@.len(),
                records.len() == n,
                j <= n,
                pending@.len() == n - j,
                forall|k: int| 0 <= k < pending@.len() ==> #[trigger] pending@[k].record == records[j + k],
                loaded@.len() == j,
                forall|k: int| 0 <= k < j ==> (#[trigger] loaded@[k])@ == planned@[k],
                self@.records == spec_commit(start, planned@.take(j as int), records.take(j as int)),
                self@.records.dom() == start.dom() + planned@.take(j as int).to_set(),
                self@.next_entity == old_next,
                forall|k: int| 0 <= k < planned@.len() ==> !start.dom().contains(#[trigger] planned@[k]),
                forall|a: int, b: int| 0 <= a < b < planned@.len() ==> #[trigger] planned@[a] != #[trigger] planned@[b],
            decreases n - j,
        {
            let entity = pending.remove(0);
            let raw = planned[j];
            proof {
                assert(entity.record == records[j as int]);
                if planned@.take(j as int).to_set().contains(raw) {
                    let k = choose|k: int| 0 <= k < planned@.take(j as int).len() && planned@.take(j as int)[k] == raw;
                    assert(planned@[k] == raw);
                }
            }
            self.store(raw, entity.record);
            loaded.push(EntityId(raw));
            proof {
                let t = planned@.take(j + 1);
                assert(t.drop_last() =~= planned@.take(j as int));
                assert(records.take(j + 1).drop_last() =~= records.take(j as int));
                assert forall|x: u64| #[trigger] t.to_set().contains(x) <==> planned@.take(j as int).to_set().insert(raw).contains(x) by {
                    if t.contains(x) {
                        let k = choose|k: int| 0 <= k < t.len() && t[k] == x;
                        if k < j {
                            assert(planned@.take(j as int)[k] == x);
                        }
                    }
                    if planned@.take(j as int).contains(x) {
                        let k = choose|k: int| 0 <= k < planned@.take(j as int).len() && planned@.take(j as int)[k] == x;
                        assert(t[k] == x);
                    }
                    if x == raw {
                        assert(t[j as int] == x);
                    }
                }
                assert(t.to_set() =~= planned@.take(j as int).to_set().insert(raw));
                assert forall|k: int| 0 <= k < pending@.len() implies #[trigger] pending@[k].record == records[j + 1 + k] by {
                }
            }
            j = j + 1;
        }
        proof {
            use_type_invariant(&*self);
            assert(planned@.take(n as int) =~= planned@);
            assert(records.take(n as int) =~= records);
            assert(raw_ids_of(loaded@) =~= planned@);
        }
        self.next_entity = next;
        Ok(loaded)
    }
}

impl<R> World<R> {
    /// Replaces the record of an existing entity, handing back the old one.
    pub fn replace_record(&mut self, entity: EntityId, record: R) -> (result: Result<R, WorldError>)
        ensures
            old(self)@.records.contains_key(entity@) ==> (result matches Ok(previous) && previous
                == old(self)@.records[entity@] && final(self)@.records == old(self)@.records.insert(
                entity@,
                record,
            ) && final(self)@.next_entity == old(self)@.next_entity),
            !old(self)@.records.contains_key(entity@) ==> (result matches Err(error) && error@
                == WorldErrorView::MissingEntity(entity@) && final(self)@ == old(self)@),
    {
        proof {
            use_type_invariant(&*self);
        }
        match self.find(entity.raw()) {
            Some(i) => {
                let mut entries = Vec::new();
                std::mem::swap(&mut entries, &mut self.entities);
                let ghost before = entries@;
                let (id, previous) = entries.remove(i);
                entries.insert(i, (id, record));
                proof {
                    let after = entries@;
                    assert(after =~= before.update(i as int, (id, record)));
                    assert forall|a: int, b: int| 0 <= a < b < after.len() implies (#[trigger] after[a]).0@
                        < (#[trigger] after[b]).0@ by {
                        assert(before[a].0@ < before[b].0@);
                    }
                    let m = records_of(before).insert(entity@, record);
                    assert forall|k: u64| #[trigger] records_of(after).contains_key(k) <==> m.contains_key(k) by {
                        if has_entry(before, k) {
                            let j = choose|j: int| 0 <= j < before.len() && #[trigger] before[j].0@ == k;
                            assert(after[j].0@ == k);
                        }
                        if has_entry(after, k) {
                            let j = choose|j: int| 0 <= j < after.len() && #[trigger] after[j].0@ == k;
                            assert(before[j].0@ == k);
                        }
                    }
                    assert forall|k: u64| #[trigger] records_of(after).contains_key(k) implies records_of(after)[k]
                        == m[k] by {
                        let j = choose|j: int| 0 <= j < after.len() && #[trigger] after[j].0@ == k;
                        lemma_records_at(after, j);
                        if j != i {
                            lemma_records_at(before, j);
                        }
                    }
                    assert(records_of(after) =~= m);
                }
                self.entities = entries;
                Ok(previous)
            },
            None => Err(WorldError::MissingEntity(entity)),
        }
    }

    /// Removes an entity, handing back its record.
    pub fn remove(&mut self, entity: EntityId) -> (removed: Option<R>)
        ensures
            match removed {
                Some(record) => old(self)@.records.contains_key(entity@) && record
                    == old(self)@.records[entity@],
                None => !old(self)@.records.contains_key(entity@),
            },
            final(self)@.records == old(self)@.records.remove(entity@),
            final(self)@.next_entity == old(self)@.next_entity,
    {
        proof {
            use_type_invariant(&*self);
        }
        match self.find(entity.raw()) {
            Some(i) => {
                let mut entries = Vec::new();
                std::mem::swap(&mut entries, &mut self.entities);
                let ghost before = entries@;
                let (_, record) = entries.remove(i);
                proof {
                    let after = entries@;
                    assert forall|a: int, b: int| 0 <= a < b < after.len() implies (#[trigger] after[a]).0@
                        < (#[trigger] after[b]).0@ by {
                        if b < i {
                            assert(before[a].0@ < before[b].0@);
                        } else if a < i {
                            assert(before[a].0@ < before[b + 1].0@);
                        } else {
                            assert(before[a + 1].0@ < before[b + 1].0@);
                        }
                    }
                    let m = records_of(before).remove(entity@);
                    assert forall|k: u64| #[trigger] records_of(after).contains_key(k) <==> m.contains_key(k) by {
                        if has_entry(before, k) && k != entity@ {
                            let j = choose|j: int| 0 <= j < before.len() && #[trigger] before[j].0@ == k;
                            if j < i {
                                assert(after[j].0@ == k);
                            } else {
                                assert(j != i);
                                assert(after[j - 1].0@ == k);
                            }
                        }
                        if has_entry(after, k) {
                            let j = choose|j: int| 0 <= j < after.len() && #[trigger] after[j].0@ == k;
                            if j < i {
                                assert(before[j].0@ == k);
                                assert(before[j].0@ < before[i as int].0@);
                            } else {
                                assert(before[j + 1].0@ == k);
                                assert(before[i as int].0@ < before[j + 1].0@);
                            }
                        }
                    }
                    assert forall|k: u64| #[trigger] records_of(after).contains_key(k) implies records_of(after)[k]
                        == m[k] by {
                        let j = choose|j: int| 0 <= j < after.len() && #[trigger] after[j].0@ == k;
                        lemma_records_at(after, j);
                        if j < i {
                            lemma_records_at(before, j);
                        } else {
                            lemma_records_at(before, j + 1);
                        }
                    }
                    assert(records_of(after) =~= m);
                }
                self.entities = entries;
                Some(record)
            },
            None => {
                assert(self@.records.remove(entity@) =~= self@.records);
                None
            },
        }
    }
}

// ---------------------------------------------------------------------------
// Instancing

/// The entity id with the number.
pub closed spec fn spec_entity_id(raw: u64) -> EntityId {
    EntityId(raw)
}

/// `spec_entity_id` keeps the number.
pub proof fn lemma_spec_entity_id(raw: u64)
    ensures
        spec_entity_id(raw)@ == raw,
{
}

/// The explicit ids among the wanted ones, in order.
pub open spec fn explicit_ids(wanted: Seq<Option<u64>>) -> Seq<u64>
    decreases wanted.len(),
{
    if wanted.len() == 0 {
        seq![]
    } else {
        match wanted.last() {
            Some(raw) => explicit_ids(wanted.drop_last()).push(raw),
            None => explicit_ids(wanted.drop_last()),
        }
    }
}

/// The first id that repeats an earlier one, scanning in order.
pub open spec fn first_repeat(ids: Seq<u64>) -> Option<u64>
    decreases ids.len(),
{
    if ids.len() == 0 {
        None
    } else {
        match first_repeat(ids.drop_last()) {
            Some(raw) => Some(raw),
            None => if ids.drop_last().contains(ids.last()) {
                Some(ids.last())
            } else {
                None
            },
        }
    }
}

/// The smallest id at or above `from`, below the reserved maximum, that is
/// not in `used`, with the position to continue from.
pub open spec fn next_unused(used: Set<u64>, from: u64) -> Option<(u64, u64)>
    decreases u64::MAX - from,
{
    if from >= u64::MAX {
        None
    } else if !used.contains(from) {
        Some((from, (from + 1) as u64))
    } else {
        next_unused(used, (from + 1) as u64)
    }
}

/// The source ids given to entities without an explicit one: the smallest
/// unused ids counting up from `from`.
pub open spec fn spec_fill_sources(wanted: Seq<Option<u64>>, used: Set<u64>, from: u64) -> Result<
    Seq<u64>,
    WorldErrorView,
>
    decreases wanted.len(),
{
    if wanted.len() == 0 {
        Ok(seq![])
    } else {
        match wanted[0] {
            Some(raw) => match spec_fill_sources(wanted.drop_first(), used, from) {
                Ok(rest) => Ok(seq![raw] + rest),
                Err(error) => Err(error),
            },
            None => match next_unused(used, from) {
                None => Err(WorldErrorView::EntityIdOverflow(u64::MAX as u64)),
                Some((raw, after)) => match spec_fill_sources(
                    wanted.drop_first(),
                    used.insert(raw),
                    after,
                ) {
                    Ok(rest) => Ok(seq![raw] + rest),
                    Err(error) => Err(error),
                },
            },
        }
    }
}

/// The source ids of entities being instantiated: each explicit id, which
/// must not repeat, and for each entity without one the smallest id from 1
/// up that no other entity uses.
pub open spec fn spec_instance_sources(wanted: Seq<Option<u64>>) -> Result<Seq<u64>, WorldErrorView> {
    match first_repeat(explicit_ids(wanted)) {
        Some(raw) => Err(WorldErrorView::DuplicateEntityId(raw)),
        None => spec_fill_sources(wanted, explicit_ids(wanted).to_set(), 1),
    }
}

/// The ids that `count` instantiated entities get in a world holding `ids`
/// with next id `next`: each the next free id that is no source id.
pub open spec fn spec_instance_plan(ids: Set<u64>, sources: Set<u64>, next: u64, count: nat) -> Result<
    (Seq<u64>, u64),
    WorldErrorView,
>
    decreases count,
{
    if count == 0 {
        Ok((seq![], next))
    } else {
        match spec_allocate(ids + sources, next) {
            None => Err(WorldErrorView::EntityIdOverflow(u64::MAX as u64)),
            Some(raw) => match spec_instance_plan(
                ids.insert(raw),
                sources,
                next_allocatable_after(raw),
                (count - 1) as nat,
            ) {
                Ok((rest, last)) => Ok((seq![raw] + rest, last)),
                Err(error) => Err(error),
            },
        }
    }
}

/// Instantiating ends: wherever every id is taken by an entity or a source,
/// every id is taken by an entity, so the search for a free id stops.
pub open spec fn instance_plan_ends(ids: Set<u64>, sources: Set<u64>, next: u64, count: nat) -> bool
    decreases count,
{
    if count == 0 {
        true
    } else {
        match spec_allocate(ids + sources, next) {
            None => spec_allocate(ids, next) is None,
            Some(raw) => instance_plan_ends(
                ids.insert(raw),
                sources,
                next_allocatable_after(raw),
                (count - 1) as nat,
            ),
        }
    }
}

/// The instance that the first pair with the source id names.
pub open spec fn spec_instance_for(pairs: Seq<(u64, u64)>, source: u64) -> Option<u64>
    decreases pairs.len(),
{
    if pairs.len() == 0 {
        None
    } else if pairs[0].0 == source {
        Some(pairs[0].1)
    } else {
        spec_instance_for(pairs.drop_first(), source)
    }
}

/// The pairs of source id and instance id that an instantiation made.
#[derive(Debug, Clone, PartialEq, Eq)]
pub struct SceneInstance {
    source_to_instance: Vec<(EntityId, EntityId)>,
}

impl View for SceneInstance {
    type V = Seq<(u64, u64)>;

    closed spec fn view(&self) -> Seq<(u64, u64)> {
        self.source_to_instance@.map_values(|pair: (EntityId, EntityId)| (pair.0@, pair.1@))
    }
}

impl SceneInstance {
    /// The instance made of the source entity.
    pub fn entity_for_source(&self, source: EntityId) -> (entity: Option<EntityId>)
        ensures
            match entity {
                Some(e) => spec_instance_for(self@, source@) == Some(e@),
                None => spec_instance_for(self@, source@) is None,
            },
    {
        let mut i: usize = 0;
        assert(self@.skip(0) =~= self@);
        while i < self.source_to_instance.len()
            invariant
                i <= self.source_to_instance@.len(),
                self@.len() == self.source_to_instance@.len(),
                spec_instance_for(self@, source@) == spec_instance_for(self@.skip(i as int), source@),
            decreases self.source_to_instance@.len() - i,
        {
            let ghost rest = self@.skip(i as int);
            assert(rest[0] == (self.source_to_instance@[i as int].0@, self.source_to_instance@[i as int].1@));
            assert(rest.drop_first() =~= self@.skip(i + 1));
            if self.source_to_instance[i].0.raw() == source.raw() {
                return Some(self.source_to_instance[i].1);
            }
            i = i + 1;
        }
        assert(self@.skip(i as int) =~= Seq::<(u64, u64)>::empty());
        None
    }
}

/// The next unused id at or above `from`.
fn find_unused(used: &Vec<u64>, from: u64) -> (found: Option<(u64, u64)>)
    ensures
        found == next_unused(used@.to_set(), from),
    decreases u64::MAX - from,
{
    if from == u64::MAX {
        return None;
    }
    if !has_raw_id(used, from) {
        return Some((from, from + 1));
    }
    find_unused(used, from + 1)
}

/// The source ids of the entities being instantiated.
pub fn instance_source_entities<R>(entities: &Vec<ResolvedEntity<R>>) -> (sources: Result<Vec<EntityId>, WorldError>)
    ensures
        match spec_instance_sources(wanted_ids(entities@)) {
            Ok(expected) => sources matches Ok(s) && raw_ids_of(s@) == expected,
            Err(error) => sources matches Err(e) && e@ == error,
        },
{
    let ghost wanted = wanted_ids(entities@);
    let n = entities.len();
    let mut used: Vec<u64> = Vec::new();
    let mut i: usize = 0;
    assert(wanted.take(0) =~= Seq::<Option<u64>>::empty());
    while i < n
        invariant
            n == entities@.len(),
            wanted == wanted_ids(entities@),
            i <= n,
            used@ == explicit_ids(wanted.take(i as int)),
            first_repeat(used@) is None,
        decreases n - i,
    {
        proof {
            let t = wanted.take(i + 1);
            assert(t.drop_last() =~= wanted.take(i as int));
            assert(t.last() == wanted[i as int]);
        }
        match entities[i].id {
            Some(entity) => {
                let raw = entity.raw();
                if has_raw_id(&used, raw) {
                    proof {
                        let t = wanted.take(i + 1);
                        assert(explicit_ids(t) == used@.push(raw));
                        assert(used@.push(raw).drop_last() =~= used@);
                        assert(first_repeat(explicit_ids(t)) == Some(raw));
                        lemma_first_repeat_prefix(wanted, i + 1);
                    }
                    return Err(WorldError::DuplicateEntityId(entity));
                }
                let ghost before = used@;
                used.push(raw);
                proof {
                    assert(used@.drop_last() =~= before);
                }
            },
            None => {},
        }
        i = i + 1;
    }
    proof {
        assert(wanted.take(n as int) =~= wanted);
    }
    let mut sources: Vec<EntityId> = Vec::new();
    let mut next_synthetic: u64 = 1;
    let mut j: usize = 0;
    assert(wanted.skip(0) =~= wanted);
    while j < n
        invariant
            n == entities@.len(),
            wanted == wanted_ids(entities@),
            j <= n,
            sources@.len() == j,
            spec_fill_sources(wanted, explicit_ids(wanted).to_set(), 1) == match spec_fill_sources(wanted.skip(j as int), used@.to_set(), next_synthetic) {
                Ok(rest) => Ok(raw_ids_of(sources@) + rest),
                Err(error) => Err(error),
            },
            first_repeat(explicit_ids(wanted)) is None,
        decreases n - j,
    {
        let ghost rest = wanted.skip(j as int);
        assert(rest[0] == wanted[j as int]);
        assert(rest.drop_first() =~= wanted.skip(j + 1));
        let ghost before = raw_ids_of(sources@);
        match entities[j].id {
            Some(entity) => {
                sources.push(entity);
            },
            None => {
                match find_unused(&used, next_synthetic) {
                    Some((raw, after)) => {
                        let ghost used_before = used@;
                        used.push(raw);
                        proof {
                            used_before.lemma_push_to_set_commute(raw);
                        }
                        next_synthetic = after;
                        sources.push(EntityId(raw));
                    },
                    None => {
                        return Err(WorldError::EntityIdOverflow(EntityId(u64::MAX)));
                    },
                }
            },
        }
        proof {
            assert(raw_ids_of(sources@) =~= before.push(sources@[j as int]@));
            match spec_fill_sources(wanted.skip(j + 1), used@.to_set(), next_synthetic) {
                Ok(r) => {
                    assert(before + (seq![sources@[j as int]@] + r) =~= raw_ids_of(sources@) + r);
                },
                Err(e) => {},
            }
        }
        j = j + 1;
    }
    proof {
        assert(wanted.skip(n as int) =~= Seq::<Option<u64>>::empty());
        assert(raw_ids_of(sources@) + Seq::<u64>::empty() =~= raw_ids_of(sources@));
    }
    Ok(sources)
}

/// A repeat among the first explicit ids is the first repeat of all of them.
proof fn lemma_first_repeat_prefix(wanted: Seq<Option<u64>>, k: int)
    requires
        0 <= k <= wanted.len(),
        first_repeat(explicit_ids(wanted.take(k))) is Some,
    ensures
        first_repeat(explicit_ids(wanted)) == first_repeat(explicit_ids(wanted.take(k))),
    decreases wanted.len() - k,
{
    if k < wanted.len() {
        let t = wanted.take(k + 1);
        assert(t.drop_last() =~= wanted.take(k));
        assert(first_repeat(explicit_ids(t)) == first_repeat(explicit_ids(wanted.take(k)))) by {
            match t.last() {
                Some(raw) => {
                    assert(explicit_ids(t) == explicit_ids(wanted.take(k)).push(raw));
                    assert(explicit_ids(t).drop_last() =~= explicit_ids(wanted.take(k)));
                },
                None => {},
            }
        }
        lemma_first_repeat_prefix(wanted, k + 1);
    } else {
        assert(wanted.take(k) =~= wanted);
    }
}

impl<R> World<R> {
    /// Instantiates entities as fresh copies: each gets a source id (its
    /// explicit id, or the smallest unused id from 1 up), a new id that is
    /// free and no source id, and a record to which `attach_source` has
    /// linked the source id. Where any entity is refused, nothing is added
    /// and the world is left as it was.
    pub fn instantiate_resolved<F: Fn(R, EntityId) -> R>(
        &mut self,
        entities: Vec<ResolvedEntity<R>>,
        attach_source: F,
    ) -> (result: Result<SceneInstance, WorldError>)
        requires
            forall|record: R, source: EntityId| call_requires(attach_source, (record, source)),
            match spec_instance_sources(wanted_ids(entities@)) {
                Ok(sources) => instance_plan_ends(
                    old(self)@.records.dom(),
                    sources.to_set(),
                    old(self)@.next_entity,
                    entities@.len(),
                ),
                Err(_) => true,
            },
        ensures
            match spec_instance_sources(wanted_ids(entities@)) {
                Err(error) => result matches Err(e) && e@ == error && final(self)@ == old(self)@,
                Ok(sources) => match spec_instance_plan(
                    old(self)@.records.dom(),
                    sources.to_set(),
                    old(self)@.next_entity,
                    entities@.len(),
                ) {
                    Err(error) => result matches Err(e) && e@ == error && final(self)@ == old(self)@,
                    Ok((planned, next)) => result matches Ok(instance) && final(self)@.next_entity == next
                        && final(self)@.records.dom() == old(self)@.records.dom() + planned.to_set()
                        && (forall|k: u64| #[trigger] old(self)@.records.contains_key(k) ==> final(self)@.records[k] == old(self)@.records[k])
                        && (forall|i: int| 0 <= i < planned.len() ==> call_ensures(
                            attach_source,
                            (records_in(entities@)[i], spec_entity_id(sources[i])),
                            #[trigger] final(self)@.records[planned[i]],
                        ))
                        && instance@.len() == planned.len()
                        && (forall|i: int| 0 <= i < planned.len() ==> #[trigger] instance@[i] == (sources[i], planned[i])),
                },
            },
    {
        let ghost old_ids = self@.records.dom();
        let ghost old_next = self.next_entity;
        let ghost records = records_in(entities@);
        let n = entities.len();
        let sources = instance_source_entities(&entities)?;
        let ghost source_ids = raw_ids_of(sources@);
        let ghost source_set = source_ids.to_set();
        let ids = self.raw_ids();
        let mut taken: Vec<u64> = Vec::new();
        let mut k: usize = 0;
        while k < ids.len()
            invariant
                k <= ids@.len(),
                taken@ == ids@.take(k as int),
            decreases ids@.len() - k,
        {
            taken.push(ids[k]);
            assert(taken@ =~= ids@.take(k + 1));
            k = k + 1;
        }
        assert(taken@ =~= ids@);
        let mut s: usize = 0;
        while s < sources.len()
            invariant
                s <= sources@.len(),
                source_ids == raw_ids_of(sources@),
                taken@.to_set() == ids@.to_set() + source_ids.take(s as int).to_set(),
            decreases sources@.len() - s,
        {
            let ghost before = taken@;
            taken.push(sources[s].raw());
            proof {
                before.lemma_push_to_set_commute(sources@[s as int]@);
                let t = source_ids.take(s + 1);
                assert(t =~= source_ids.take(s as int).push(sources@[s as int]@));
                source_ids.take(s as int).lemma_push_to_set_commute(sources@[s as int]@);
                assert(taken@.to_set() =~= ids@.to_set() + t.to_set());
            }
            s = s + 1;
        }
        proof {
            assert(source_ids.take(sources@.len() as int) =~= source_ids);
        }
        let ghost plan = spec_instance_plan(old_ids, source_set, old_next, n as nat);
        proof {
            lemma_fill_sources_len(wanted_ids(entities@), explicit_ids(wanted_ids(entities@)).to_set(), 1);
            assert(source_ids.len() == n);
            assert(planned_empty_set() =~= Set::<u64>::empty());
            assert(old_ids + Set::<u64>::empty() =~= old_ids);
        }
        let mut next = self.next_entity;
        let mut planned: Vec<u64> = Vec::new();
        assert(planned@.to_set() =~= Set::<u64>::empty());
        let mut i: usize = 0;
        while i < n
            invariant
                n == entities@.len(),
                sources@.len() == n,
                source_ids == raw_ids_of(sources@),
                source_set == source_ids.to_set(),
                self@ == old(self)@,
                old_ids == old(self)@.records.dom(),
                old_next == old(self)@.next_entity,
                plan == spec_instance_plan(old_ids, source_set, old_next, n as nat),
                spec_instance_sources(wanted_ids(entities@)) == Ok::<Seq<u64>, WorldErrorView>(source_ids),
                i <= n,
                planned@.len() == i,
                taken@.to_set() == (old_ids + planned@.to_set()) + source_set,
                instance_plan_ends(old_ids + planned@.to_set(), source_set, next, (n - i) as nat),
                forall|a: int| 0 <= a < planned@.len() ==> !old_ids.contains(#[trigger] planned@[a]),
                forall|a: int, b: int| 0 <= a < b < planned@.len() ==> #[trigger] planned@[a] != #[trigger] planned@[b],
                plan == match spec_instance_plan(old_ids + planned@.to_set(), source_set, next, (n - i) as nat) {
                    Ok((rest, last)) => Ok((planned@ + rest, last)),
                    Err(error) => Err(error),
                },
            decreases n - i,
        {
            let ghost current = old_ids + planned@.to_set();
            let raw = match allocate(&taken, next) {
                Some(raw) => raw,
                None => {
                    proof {
                        assert(spec_allocate(current + source_set, next) is None);
                        assert(spec_instance_plan(current, source_set, next, (n - i) as nat) == Err::<(Seq<u64>, u64), WorldErrorView>(WorldErrorView::EntityIdOverflow(u64::MAX as u64)));
                    }
                    return Err(WorldError::EntityIdOverflow(EntityId(u64::MAX)));
                },
            };
            proof {
                lemma_allocate_none_iff_full(current + source_set, next);
                assert(!current.contains(raw));
            }
            let ghost planned_before = planned@;
            let ghost taken_before = taken@;
            taken.push(raw);
            planned.push(raw);
            next = advance(raw);
            proof {
                taken_before.lemma_push_to_set_commute(raw);
                planned_before.lemma_push_to_set_commute(raw);
                assert(old_ids + planned@.to_set() =~= current.insert(raw));
                assert(taken@.to_set() =~= (old_ids + planned@.to_set()) + source_set);
                assert forall|a: int, b: int| 0 <= a < b < planned@.len() implies #[trigger] planned@[a] != #[trigger] planned@[b] by {
                    if b == i {
                        assert(current.contains(planned@[a]));
                    }
                }
                match spec_instance_plan(old_ids + planned@.to_set(), source_set, next, (n - i - 1) as nat) {
                    Ok((r, last)) => {
                        assert(planned_before + (seq![raw] + r) =~= planned@ + r);
                    },
                    Err(e) => {},
                }
            }
            i = i + 1;
        }
        proof {
            assert(planned@ + Seq::<u64>::empty() =~= planned@);
        }
        let mut pending = entities;
        let mut pairs: Vec<(EntityId, EntityId)> = Vec::new();
        let ghost start = self@.records;
        let mut j: usize = 0;
        assert(planned@.take(0).to_set() =~= Set::<u64>::empty());
        assert(start.dom() + Set::<u64>::empty() =~= start.dom());
        while j < n
            invariant
                n == planned@.len(),
                sources@.len() == n,
                source_ids == raw_ids_of(sources@),
                records.len() == n,
                j <= n,
                forall|record: R, source: EntityId| call_requires(attach_source, (record, source)),
                pending@.len() == n - j,
                forall|q: int| 0 <= q < pending@.len() ==> #[trigger] pending@[q].record == records[j + q],
                pairs@.len() == j,
                forall|q: int| 0 <= q < j ==> (#[trigger] pairs@[q]).0@ == source_ids[q] && pairs@[q].1@ == planned@[q],
                self@.records.dom() == start.dom() + planned@.take(j as int).to_set(),
                forall|key: u64| #[trigger] start.contains_key(key) ==> self@.records[key] == start[key],
                forall|q: int| 0 <= q < j ==> call_ensures(attach_source, (records[q], spec_entity_id(source_ids[q])), #[trigger] self@.records[planned@[q]]),
                self@.next_entity == old_next,
                forall|q: int| 0 <= q < planned@.len() ==> !start.dom().contains(#[trigger] planned@[q]),
                forall|a: int, b: int| 0 <= a < b < planned@.len() ==> #[trigger] planned@[a] != #[trigger] planned@[b],
            decreases n - j,
        {
            let entity = pending.remove(0);
            let raw = planned[j];
            let source = sources[j];
            proof {
                assert(entity.record == records[j as int]);
                assert(source@ == source_ids[j as int]);
                assert(spec_entity_id(source_ids[j as int]) == source);
                if planned@.take(j as int).to_set().contains(raw) {
                    let q = choose|q: int| 0 <= q < planned@.take(j as int).len() && planned@.take(j as int)[q] == raw;
                    assert(planned@[q] == raw);
                }
            }
            let record = attach_source(entity.record, source);
            let ghost before = self@.records;
            self.store(raw, record);
            pairs.push((source, EntityId(raw)));
            proof {
                let t = planned@.take(j + 1);
                planned@.take(j as int).lemma_push_to_set_commute(raw);
                assert(t =~= planned@.take(j as int).push(raw));
                assert(self@.records.dom() =~= start.dom() + t.to_set());
                assert forall|q: int| 0 <= q < j + 1 implies call_ensures(attach_source, (records[q], spec_entity_id(source_ids[q])), #[trigger] self@.records[planned@[q]]) by {
                    if q < j {
                        assert(planned@[q] != raw);
                        assert(self@.records[planned@[q]] == before[planned@[q]]);
                    }
                }
            }
            j = j + 1;
        }
        proof {
            use_type_invariant(&*self);
            assert(planned@.take(n as int) =~= planned@);
        }
        self.next_entity = next;
        let instance = SceneInstance { source_to_instance: pairs };
        proof {
            assert forall|q: int| 0 <= q < planned@.len() implies #[trigger] instance@[q] == (source_ids[q], planned@[q]) by {
            }
        }
        Ok(instance)
    }
}

spec fn planned_empty_set() -> Set<u64> {
    Set::empty()
}

proof fn lemma_fill_sources_len(wanted: Seq<Option<u64>>, used: Set<u64>, from: u64)
    ensures
        spec_fill_sources(wanted, used, from) matches Ok(sources) ==> sources.len() == wanted.len(),
    decreases wanted.len(),
{
    if wanted.len() > 0 {
        match wanted[0] {
            Some(raw) => lemma_fill_sources_len(wanted.drop_first(), used, from),
            None => match next_unused(used, from) {
                Some((raw, after)) => lemma_fill_sources_len(wanted.drop_first(), used.insert(raw), after),
                None => {},
            },
        }
    }
}

/// Instancing never gives an entity a source id or an id in use: every id
/// that an instantiation plans is free in the world and no source id, and
/// the ids are distinct.
pub proof fn lemma_instances_avoid_sources(ids: Set<u64>, sources: Set<u64>, next: u64, count: nat)
    requires
        spec_instance_plan(ids, sources, next, count) is Ok,
    ensures
        match spec_instance_plan(ids, sources, next, count) {
            Ok((planned, _)) => (forall|i: int| 0 <= i < planned.len() ==> !ids.contains(#[trigger] planned[i]) && !sources.contains(planned[i]))
                && (forall|a: int, b: int| 0 <= a < b < planned.len() ==> #[trigger] planned[a] != #[trigger] planned[b])
                && planned.len() == count,
            Err(_) => true,
        },
    decreases count,
{
    if count > 0 {
        let raw = spec_allocate(ids + sources, next)->0;
        lemma_allocate_none_iff_full(ids + sources, next);
        lemma_instances_avoid_sources(ids.insert(raw), sources, next_allocatable_after(raw), (count - 1) as nat);
        let rest = spec_instance_plan(ids.insert(raw), sources, next_allocatable_after(raw), (count - 1) as nat)->Ok_0.0;
        let planned = seq![raw] + rest;
        assert forall|i: int| 0 <= i < planned.len() implies !ids.contains(#[trigger] planned[i]) && !sources.contains(planned[i]) by {
            if i > 0 {
                assert(planned[i] == rest[i - 1]);
            }
        }
        assert forall|a: int, b: int| 0 <= a < b < planned.len() implies #[trigger] planned[a] != #[trigger] planned[b] by {
            if a == 0 {
                assert(planned[b] == rest[b - 1]);
            } else {
                assert(planned[a] == rest[a - 1]);
                assert(planned[b] == rest[b - 1]);
            }
        }
    }
}

impl<R> Default for World<R> {
    fn default() -> (world: World<R>)
        ensures
            world@.next_entity == 1,
            world@.records == Map::<u64, R>::empty(),
    {
        World::new()
    }
}

} // verus!
