//! Loading a main scene as a run of steps: the entities' ids are planned
//! first, then each entity's render and audio assets are loaded in order,
//! and only when every one has loaded are the entities and their assets
//! committed. A refused plan or a failed asset load stops the run before
//! anything is committed.
use vstd::prelude::*;

use crate::world::{EntityId, WorldError};

verus! {

/// What loading the main scene does next.
#[derive(Debug)]
pub enum MainSceneAction {
    /// Load the assets of entity `index` of the scene, which gets `entity`.
    LoadAssets { index: usize, entity: EntityId },
    /// Every entity's assets have loaded: commit the entities and their
    /// assets.
    Commit,
    /// Stop without committing anything.
    Abort,
}

/// What the caller reports after loading an entity's assets.
#[derive(Debug)]
pub enum MainSceneEvent {
    AssetsLoaded,
    AssetsFailed,
}

/// The view of an action: the entity's index and raw id for a load.
pub enum MainSceneActionView {
    LoadAssets(nat, u64),
    Commit,
    Abort,
}

impl View for MainSceneAction {
    type V = MainSceneActionView;

    open spec fn view(&self) -> MainSceneActionView {
        match self {
            MainSceneAction::LoadAssets { index, entity } => MainSceneActionView::LoadAssets(*index as nat, entity@),
            MainSceneAction::Commit => MainSceneActionView::Commit,
            MainSceneAction::Abort => MainSceneActionView::Abort,
        }
    }
}

/// Where loading stands: the ids planned for the scene's entities, in
/// order, and how many of them have their assets loaded.
#[derive(Debug)]
pub struct MainSceneLoad {
    planned: Vec<EntityId>,
    loaded: usize,
}

/// The view of a load in progress.
pub struct MainSceneLoadView {
    pub planned: Seq<u64>,
    pub loaded: nat,
}

impl View for MainSceneLoad {
    type V = MainSceneLoadView;

    closed spec fn view(&self) -> MainSceneLoadView {
        MainSceneLoadView { planned: self.planned@.map_values(|id: EntityId| id@), loaded: self.loaded as nat }
    }
}

/// What follows once `loaded` entities have their assets: the next
/// entity's load, or the commit when none is left.
pub open spec fn spec_next_action(planned: Seq<u64>, loaded: nat) -> MainSceneActionView {
    if loaded < planned.len() {
        MainSceneActionView::LoadAssets(loaded, planned[loaded as int])
    } else {
        MainSceneActionView::Commit
    }
}

impl MainSceneLoad {
    /// No more entities are loaded than were planned.
    pub closed spec fn wf(&self) -> bool {
        self.loaded <= self.planned@.len()
    }

    fn next_action(&self) -> (action: MainSceneAction)
        requires
            self.wf(),
        ensures
            action@ == spec_next_action(self@.planned, self@.loaded),
    {
        if self.loaded < self.planned.len() {
            MainSceneAction::LoadAssets { index: self.loaded, entity: self.planned[self.loaded] }
        } else {
            MainSceneAction::Commit
        }
    }

    /// Starts loading from the world's plan for the scene's entities: a
    /// refused plan aborts at once; otherwise the first entity's assets are
    /// loaded, or, for a scene without entities, the load is committed.
    pub fn begin(plan: Result<Vec<EntityId>, WorldError>) -> (result: (MainSceneLoad, MainSceneAction))
        ensures
            result.0.wf(),
            result.0@.loaded == 0,
            match plan {
                Ok(ids) => result.0@.planned == ids@.map_values(|id: EntityId| id@) && result.1@ == spec_next_action(
                    result.0@.planned,
                    0,
                ),
                Err(_) => result.0@.planned.len() == 0 && result.1@ == MainSceneActionView::Abort,
            },
    {
        match plan {
            Ok(planned) => {
                let load = MainSceneLoad { planned, loaded: 0 };
                let action = load.next_action();
                (load, action)
            },
            Err(_) => {
                let load = MainSceneLoad { planned: Vec::new(), loaded: 0 };
                proof {
                    assert(load@.planned =~= Seq::<u64>::empty());
                }
                (load, MainSceneAction::Abort)
            },
        }
    }

    /// Takes the report on the entity whose assets were being loaded: once
    /// they loaded, the next entity's assets are loaded, or the whole load
    /// is committed after the last; a failure aborts, so nothing is
    /// committed.
    pub fn step(self, event: MainSceneEvent) -> (result: (MainSceneLoad, MainSceneAction))
        requires
            self.wf(),
            self@.loaded < self@.planned.len(),
        ensures
            result.0.wf(),
            result.0@.planned == self@.planned,
            match event {
                MainSceneEvent::AssetsLoaded => result.0@.loaded == self@.loaded + 1 && result.1@
                    == spec_next_action(self@.planned, self@.loaded + 1),
                MainSceneEvent::AssetsFailed => result.0@.loaded == self@.loaded && result.1@
                    == MainSceneActionView::Abort,
            },
    {
        match event {
            MainSceneEvent::AssetsLoaded => {
                let n = self.planned.len();
                assert(self.loaded < n);
                let load = MainSceneLoad { planned: self.planned, loaded: self.loaded + 1 };
                let action = load.next_action();
                (load, action)
            },
            MainSceneEvent::AssetsFailed => (self, MainSceneAction::Abort),
        }
    }
}

/// The actions that a run of reports gives after `begin` on an accepted
/// plan: the last action, where the reports follow the actions (one report
/// per entity load).
pub open spec fn spec_run(planned: Seq<u64>, reports: Seq<bool>) -> MainSceneActionView
    decreases reports.len(),
{
    if reports.len() == 0 {
        spec_next_action(planned, 0)
    } else {
        match spec_run(planned, reports.drop_last()) {
            MainSceneActionView::LoadAssets(index, _) => if reports.last() {
                spec_next_action(planned, index + 1)
            } else {
                MainSceneActionView::Abort
            },
            other => other,
        }
    }
}

/// A main scene is committed only after every entity's assets loaded, and a
/// failed load is never followed by a commit: along a run of reports, the
/// entities' loads come in order, the commit comes exactly when as many
/// loads as there are entities have succeeded, and once a report is a
/// failure the run has aborted.
pub proof fn lemma_commit_only_after_every_load(planned: Seq<u64>, reports: Seq<bool>)
    requires
        reports.len() <= planned.len(),
    ensures
        (forall|k: int| 0 <= k < reports.len() ==> #[trigger] reports[k]) ==> spec_run(planned, reports)
            == spec_next_action(planned, reports.len()),
        (exists|k: int| 0 <= k < reports.len() && !#[trigger] reports[k]) ==> spec_run(planned, reports)
            == MainSceneActionView::Abort,
    decreases reports.len(),
{
    if reports.len() > 0 {
        let rest = reports.drop_last();
        lemma_commit_only_after_every_load(planned, rest);
        if forall|k: int| 0 <= k < reports.len() ==> #[trigger] reports[k] {
            assert forall|k: int| 0 <= k < rest.len() implies #[trigger] rest[k] by {
                assert(reports[k]);
            }
            assert(reports.last() == reports[reports.len() - 1]);
        }
        if exists|k: int| 0 <= k < reports.len() && !#[trigger] reports[k] {
            let k = choose|k: int| 0 <= k < reports.len() && !#[trigger] reports[k];
            if k < rest.len() {
                assert(!rest[k]);
            } else {
                if forall|j: int| 0 <= j < rest.len() ==> #[trigger] rest[j] {
                } else {
                    let j = choose|j: int| 0 <= j < rest.len() && !#[trigger] rest[j];
                    assert(!rest[j]);
                }
            }
        }
    }
}

} // verus!
