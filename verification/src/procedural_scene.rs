//! Procedural scene documents: entities pushed in order, with synthetic
//! entity ids counted up from a base that the seed picks.
use vstd::prelude::*;

use crate::procedural::{
    spec_synthetic_id_base, synthetic_id_base, ProceduralRng, ProceduralSeed, MAX_SYNTHETIC_ID_BASE,
};
use crate::scene_diff::{entity_views, SceneDocument, SceneEntity};
use crate::world::EntityId;

verus! {

/// How many distinct synthetic ids there are: every `u64` but the reserved
/// 0 and `u64::MAX`.
pub open spec fn synthetic_id_count() -> int {
    u64::MAX - 1
}

/// The id that a synthetic counter standing at `next` hands out: the counter
/// itself, or 1 when it stands on one of the reserved values 0 and `u64::MAX`.
pub open spec fn spec_generated_id(next: u64) -> u64 {
    if next == 0 || next == u64::MAX {
        1
    } else {
        next
    }
}

/// The counter after it handed out an id.
pub open spec fn spec_counter_after(next: u64) -> u64 {
    (spec_generated_id(next) + 1) as u64
}

/// The id handed out by the call after `calls` earlier ones, from a counter
/// that stood at `next`.
pub open spec fn spec_id_after(next: u64, calls: nat) -> u64
    decreases calls,
{
    if calls == 0 {
        spec_generated_id(next)
    } else {
        spec_id_after(spec_counter_after(next), (calls - 1) as nat)
    }
}

/// The ids handed out go round `1..u64::MAX` in order.
proof fn lemma_id_after_closed_form(next: u64, calls: nat)
    ensures
        spec_id_after(next, calls) == 1 + (spec_generated_id(next) - 1 + calls) % synthetic_id_count(),
    decreases calls,
{
    let p = synthetic_id_count();
    if calls == 0 {
        assert((spec_generated_id(next) - 1) % p == spec_generated_id(next) - 1);
    } else {
        let after = spec_counter_after(next);
        lemma_id_after_closed_form(after, (calls - 1) as nat);
        if after == u64::MAX {
            assert(spec_generated_id(next) == p);
            vstd::arithmetic::div_mod::lemma_mod_add_multiples_vanish(calls - 1 + 1, p);
            assert((p + calls) % p == (calls as int) % p);
        } else {
            assert(spec_generated_id(after) == spec_generated_id(next) + 1);
        }
    }
}

/// A procedural scene builder never hands out 0 or `u64::MAX`, and never the
/// same id twice within `u64::MAX - 1` calls.
pub proof fn lemma_generated_ids_are_distinct(next: u64, earlier: nat, later: nat)
    requires
        earlier < later < synthetic_id_count(),
    ensures
        spec_id_after(next, earlier) != spec_id_after(next, later),
        1 <= spec_id_after(next, later) < u64::MAX,
{
    lemma_id_after_closed_form(next, earlier);
    lemma_id_after_closed_form(next, later);
    let p = synthetic_id_count();
    let start = spec_generated_id(next) - 1;
    assert(0 <= start < p);
    assert((start + earlier) % p != (start + later) % p) by (nonlinear_arith)
        requires
            0 <= start < p,
            0 <= earlier < later < p,
            p == u64::MAX - 1,
    {
        vstd::arithmetic::div_mod::lemma_fundamental_div_mod(start + earlier, p);
        vstd::arithmetic::div_mod::lemma_fundamental_div_mod(start + later, p);
    }
}

/// A builder as its random stream's state, its synthetic id counter and the
/// entities pushed so far.
pub struct ProceduralSceneView {
    pub rng: u64,
    pub next_id: u64,
    pub entities: Seq<SceneEntity>,
}

/// Builds a scene document entity by entity; entities without an id of
/// their own take synthetic ids from a counter that the seed starts.
pub struct ProceduralSceneBuilder {
    rng: ProceduralRng,
    next_synthetic_id: u64,
    entities: Vec<SceneEntity>,
}

impl View for ProceduralSceneBuilder {
    type V = ProceduralSceneView;

    closed spec fn view(&self) -> ProceduralSceneView {
        ProceduralSceneView { rng: self.rng@, next_id: self.next_synthetic_id, entities: self.entities@ }
    }
}

impl ProceduralSceneBuilder {
    /// An empty builder whose stream and id counter start from `seed`.
    pub fn new(seed: ProceduralSeed) -> (builder: Self)
        ensures
            builder@.rng == seed@,
            builder@.next_id == spec_synthetic_id_base(seed@),
            builder@.entities == Seq::<SceneEntity>::empty(),
            1 <= builder@.next_id <= MAX_SYNTHETIC_ID_BASE,
    {
        ProceduralSceneBuilder {
            rng: ProceduralRng::new(seed),
            next_synthetic_id: synthetic_id_base(seed),
            entities: Vec::new(),
        }
    }

    /// The random stream, for drawing while generating.
    pub fn rng_mut(&mut self) -> (rng: &mut ProceduralRng)
        ensures
            rng@ == old(self)@.rng,
            final(self)@.rng == final(rng)@,
            final(self)@.next_id == old(self)@.next_id,
            final(self)@.entities == old(self)@.entities,
    {
        &mut self.rng
    }

    /// The next synthetic id; the counter skips the reserved 0 and `u64::MAX`.
    pub fn next_entity_id(&mut self) -> (id: EntityId)
        ensures
            id@ == spec_generated_id(old(self)@.next_id),
            final(self)@.next_id == spec_counter_after(old(self)@.next_id),
            final(self)@.rng == old(self)@.rng,
            final(self)@.entities == old(self)@.entities,
            1 <= id@ < u64::MAX,
    {
        loop
            invariant
                spec_generated_id(self.next_synthetic_id) == spec_generated_id(old(self)@.next_id),
                self.rng@ == old(self)@.rng,
                self.entities@ == old(self)@.entities,
            decreases
                if self.next_synthetic_id == u64::MAX {
                    2int
                } else if self.next_synthetic_id == 0 {
                    1int
                } else {
                    0int
                },
        {
            let id = self.next_synthetic_id;
            self.next_synthetic_id = self.next_synthetic_id.wrapping_add(1);
            if id != 0 && id != u64::MAX {
                return EntityId::new(id);
            }
        }
    }

    /// Appends an entity document as it is.
    pub fn push_document_entity(&mut self, entity: SceneEntity)
        ensures
            final(self)@.entities == old(self)@.entities.push(entity),
            final(self)@.rng == old(self)@.rng,
            final(self)@.next_id == old(self)@.next_id,
    {
        self.entities.push(entity);
    }

    /// Takes the next synthetic id, lets `configure` make the entity for it
    /// and appends that entity; returns the id.
    pub fn push_generated_entity<F: FnOnce(EntityId) -> SceneEntity>(&mut self, configure: F) -> (id: EntityId)
        requires
            forall|id: EntityId| configure.requires((id,)),
        ensures
            id@ == spec_generated_id(old(self)@.next_id),
            final(self)@.next_id == spec_counter_after(old(self)@.next_id),
            final(self)@.rng == old(self)@.rng,
            final(self)@.entities.len() == old(self)@.entities.len() + 1,
            final(self)@.entities.drop_last() == old(self)@.entities,
            configure.ensures((id,), final(self)@.entities.last()),
    {
        let id = self.next_entity_id();
        let entity = configure(id);
        self.entities.push(entity);
        assert(self.entities@.drop_last() =~= old(self)@.entities);
        id
    }

    /// The scene document of the entities pushed, in order.
    pub fn build(self) -> (document: SceneDocument)
        ensures
            document@ == entity_views(self@.entities),
    {
        SceneDocument { entities: self.entities }
    }
}

} // verus!
