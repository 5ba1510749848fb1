//! A queue of scene reloads, each a whole new scene or a diff, applied to a
//! target document one at a time or all at once.
use std::collections::VecDeque;
use vstd::prelude::*;

use crate::scene_diff::{
    is_diff, lemma_apply_between, spec_apply, spec_diff, spec_index, spec_listing, EntityView,
    SceneChangeView, SceneDiff, SceneDiffError, SceneDiffErrorView, SceneDiffSide, SceneDocument,
};

verus! {

/// What a reload brings: a whole new scene, or a diff to apply.
#[derive(Debug, PartialEq, Eq)]
pub enum SceneReloadUpdate {
    Scene(SceneDocument),
    Diff(SceneDiff),
}

/// A reload update as entity and change views.
pub enum SceneReloadUpdateView {
    Scene(Seq<EntityView>),
    Diff(Seq<SceneChangeView>),
}

impl View for SceneReloadUpdate {
    type V = SceneReloadUpdateView;

    open spec fn view(&self) -> SceneReloadUpdateView {
        match self {
            SceneReloadUpdate::Scene(scene) => SceneReloadUpdateView::Scene(scene@),
            SceneReloadUpdate::Diff(diff) => SceneReloadUpdateView::Diff(diff@),
        }
    }
}

/// A reload request as its source and update.
pub type RequestView = (Seq<char>, SceneReloadUpdateView);

/// A reload outcome as its source and number of changes.
pub type ReloadResultView = (Seq<char>, nat);

/// The target's entities after a reload update and the number of changes
/// it made, or the error it stopped at. A new scene is diffed against the
/// target and the diff applied; a diff is applied as it is.
pub open spec fn spec_reload(target: Seq<EntityView>, update: SceneReloadUpdateView) -> Result<
    (Seq<EntityView>, nat),
    SceneDiffErrorView,
> {
    match update {
        SceneReloadUpdateView::Scene(scene) => match spec_index(target, SceneDiffSide::Old) {
            Err(error) => Err(error),
            Ok(old) => match spec_index(scene, SceneDiffSide::New) {
                Err(error) => Err(error),
                Ok(new) => Ok((spec_listing(new), spec_diff(old, new).len())),
            },
        },
        SceneReloadUpdateView::Diff(changes) => match spec_index(target, SceneDiffSide::Target) {
            Err(error) => Err(error),
            Ok(entities) => match spec_apply(entities, changes) {
                Err(error) => Err(error),
                Ok(applied) => Ok((spec_listing(applied), changes.len())),
            },
        },
    }
}

/// Why a reload failed.
#[derive(Debug, Clone, Copy, PartialEq, Eq, Structural)]
pub enum SceneReloadError {
    Diff(SceneDiffError),
}

impl View for SceneReloadError {
    type V = SceneDiffErrorView;

    open spec fn view(&self) -> SceneDiffErrorView {
        match self {
            SceneReloadError::Diff(error) => error@,
        }
    }
}

impl SceneReloadError {
    /// The human-readable description of the error.
    pub fn message(&self) -> (text: String)
        ensures
            text@ == "scene reload diff failed: "@ + self@.message(),
    {
        match self {
            SceneReloadError::Diff(error) => {
                let mut text = "scene reload diff failed: ".to_owned();
                let detail = error.message();
                text.append(detail.as_str());
                text
            },
        }
    }
}

impl From<SceneDiffError> for SceneReloadError {
    fn from(error: SceneDiffError) -> (reload: SceneReloadError) {
        SceneReloadError::Diff(error)
    }
}

impl vstd::std_specs::convert::FromSpecImpl<SceneDiffError> for SceneReloadError {
    open spec fn obeys_from_spec() -> bool {
        true
    }

    open spec fn from_spec(error: SceneDiffError) -> SceneReloadError {
        SceneReloadError::Diff(error)
    }
}

/// The outcome of one reload: its source and how many changes it made.
#[derive(Debug, Clone, PartialEq, Eq)]
pub struct SceneReloadResult {
    source: String,
    change_count: usize,
}

impl View for SceneReloadResult {
    type V = ReloadResultView;

    closed spec fn view(&self) -> ReloadResultView {
        (self.source@, self.change_count as nat)
    }
}

impl SceneReloadResult {
    pub fn source(&self) -> (source: &str)
        ensures
            source@ == self@.0,
    {
        self.source.as_str()
    }

    pub fn change_count(&self) -> (count: usize)
        ensures
            count == self@.1,
    {
        self.change_count
    }

    fn copy(&self) -> (copy: SceneReloadResult)
        ensures
            copy@ == self@,
    {
        SceneReloadResult { source: self.source.clone(), change_count: self.change_count }
    }
}

/// A reload: where it comes from and what it brings.
#[derive(Debug, PartialEq, Eq)]
pub struct SceneReloadRequest {
    source: String,
    update: SceneReloadUpdate,
}

impl View for SceneReloadRequest {
    type V = RequestView;

    closed spec fn view(&self) -> RequestView {
        (self.source@, self.update@)
    }
}

impl SceneReloadRequest {
    /// A reload that replaces the target's entities with the scene's.
    pub fn scene(source: &str, scene: SceneDocument) -> (request: SceneReloadRequest)
        ensures
            request@ == (source@, SceneReloadUpdateView::Scene(scene@)),
    {
        SceneReloadRequest { source: source.to_owned(), update: SceneReloadUpdate::Scene(scene) }
    }

    /// A reload that applies the diff to the target.
    pub fn diff(source: &str, diff: SceneDiff) -> (request: SceneReloadRequest)
        ensures
            request@ == (source@, SceneReloadUpdateView::Diff(diff@)),
    {
        SceneReloadRequest { source: source.to_owned(), update: SceneReloadUpdate::Diff(diff) }
    }

    pub fn source(&self) -> (source: &str)
        ensures
            source@ == self@.0,
    {
        self.source.as_str()
    }

    /// Applies the reload to the target. On failure the target is left
    /// unchanged.
    pub fn apply_to(&self, target: &mut SceneDocument) -> (result: Result<SceneReloadResult, SceneReloadError>)
        ensures
            match spec_reload(old(target)@, self@.1) {
                Err(error) => result matches Err(e) && e@ == error && *final(target) == *old(target),
                Ok((entities, count)) => result matches Ok(outcome) && outcome@ == (self@.0, count)
                    && final(target)@ == entities,
            },
    {
        let change_count = match &self.update {
            SceneReloadUpdate::Scene(scene) => {
                let diff = match SceneDiff::between(target, scene) {
                    Ok(diff) => diff,
                    Err(error) => return Err(SceneReloadError::Diff(error)),
                };
                proof {
                    lemma_apply_between(target@, scene@, diff@);
                }
                let change_count = diff.changes().len();
                match diff.apply_to(target) {
                    Ok(()) => {},
                    Err(error) => return Err(SceneReloadError::Diff(error)),
                }
                change_count
            },
            SceneReloadUpdate::Diff(diff) => {
                let change_count = diff.changes().len();
                match diff.apply_to(target) {
                    Ok(()) => {},
                    Err(error) => return Err(SceneReloadError::Diff(error)),
                }
                change_count
            },
        };
        Ok(SceneReloadResult { source: self.source.clone(), change_count })
    }
}

/// The sum of the change counts.
pub open spec fn total_changes(results: Seq<ReloadResultView>) -> nat
    decreases results.len(),
{
    if results.len() == 0 {
        0
    } else {
        results[0].1 + total_changes(results.drop_first())
    }
}

/// The outcomes of reloads, in the order they were applied.
#[derive(Debug, Clone, Default, PartialEq, Eq)]
pub struct SceneReloadReport {
    results: Vec<SceneReloadResult>,
}

/// The outcomes as views.
pub open spec fn result_views(results: Seq<SceneReloadResult>) -> Seq<ReloadResultView> {
    results.map_values(|result: SceneReloadResult| result@)
}

impl View for SceneReloadReport {
    type V = Seq<ReloadResultView>;

    closed spec fn view(&self) -> Seq<ReloadResultView> {
        result_views(self.results@)
    }
}

impl SceneReloadReport {
    pub fn results(&self) -> (results: &[SceneReloadResult])
        ensures
            result_views(results@) == self@,
    {
        self.results.as_slice()
    }

    /// The number of changes all the reloads made together.
    pub fn total_change_count(&self) -> (total: usize)
        requires
            total_changes(self@) <= usize::MAX,
        ensures
            total == total_changes(self@),
    {
        let ghost views = result_views(self.results@);
        let mut total: usize = 0;
        let mut i: usize = self.results.len();
        assert(views.subrange(i as int, views.len() as int) =~= Seq::<ReloadResultView>::empty());
        assert(views.subrange(0, i as int) =~= views);
        while i > 0
            invariant
                i <= self.results@.len(),
                views == result_views(self.results@),
                total_changes(views) <= usize::MAX,
                total == total_changes(views.subrange(i as int, views.len() as int)),
                total_changes(views) == total_changes(views.subrange(0, i as int)) + total,
            decreases i,
        {
            let ghost tail = views.subrange(i as int, views.len() as int);
            let ghost head = views.subrange(0, i as int);
            proof {
                lemma_total_split(views, (i - 1) as int);
                assert(views.subrange(i - 1, views.len() as int).drop_first() =~= tail);
            }
            i = i - 1;
            total = total + self.results[i].change_count();
        }
        assert(views.subrange(0, 0) =~= Seq::<ReloadResultView>::empty());
        assert(views.subrange(0, views.len() as int) =~= views);
        total
    }
}

/// Splitting the outcomes at an index splits their total.
proof fn lemma_total_split(results: Seq<ReloadResultView>, at: int)
    requires
        0 <= at <= results.len(),
    ensures
        total_changes(results) == total_changes(results.subrange(0, at)) + total_changes(
            results.subrange(at, results.len() as int),
        ),
    decreases at,
{
    if at == 0 {
        assert(results.subrange(0, 0) =~= Seq::<ReloadResultView>::empty());
        assert(results.subrange(0, results.len() as int) =~= results);
    } else {
        lemma_total_split(results.drop_first(), at - 1);
        assert(results.drop_first().subrange(0, at - 1) =~= results.subrange(0, at).drop_first());
        assert(results.drop_first().subrange(at - 1, results.len() - 1) =~= results.subrange(
            at,
            results.len() as int,
        ));
    }
}

/// The target's entities after the updates in order and each update's
/// outcome, or the error of the first update that fails.
pub open spec fn spec_reload_all(target: Seq<EntityView>, requests: Seq<RequestView>) -> Result<
    (Seq<EntityView>, Seq<ReloadResultView>),
    SceneDiffErrorView,
>
    decreases requests.len(),
{
    if requests.len() == 0 {
        Ok((target, seq![]))
    } else {
        match spec_reload(target, requests[0].1) {
            Err(error) => Err(error),
            Ok((next, count)) => match spec_reload_all(next, requests.drop_first()) {
                Err(error) => Err(error),
                Ok((entities, results)) => Ok((entities, seq![(requests[0].0, count)] + results)),
            },
        }
    }
}

/// Applying a queue of reloads reports one outcome per request, in the
/// order the requests were queued, each under its request's source; the
/// report's total is the sum of the outcomes' change counts.
pub proof fn lemma_reload_all_reports_each_request(target: Seq<EntityView>, requests: Seq<RequestView>)
    ensures
        spec_reload_all(target, requests) matches Ok((entities, results)) ==> {
            &&& results.len() == requests.len()
            &&& forall|i: int| 0 <= i < results.len() ==> (#[trigger] results[i]).0 == requests[i].0
        },
    decreases requests.len(),
{
    if requests.len() > 0 {
        if let Ok((next, count)) = spec_reload(target, requests[0].1) {
            lemma_reload_all_reports_each_request(next, requests.drop_first());
            if let Ok((entities, results)) = spec_reload_all(target, requests) {
                let rest = spec_reload_all(next, requests.drop_first())->Ok_0.1;
                assert(results == seq![(requests[0].0, count)] + rest);
                assert forall|i: int| 0 <= i < results.len() implies (#[trigger] results[i]).0 == requests[i].0 by {
                    if i > 0 {
                        assert(results[i] == rest[i - 1]);
                        assert(requests.drop_first()[i - 1] == requests[i]);
                    }
                }
            }
        }
    }
}

/// The outcome of reloading after the given outcomes came first.
pub open spec fn after_results(
    first: Seq<ReloadResultView>,
    rest: Result<(Seq<EntityView>, Seq<ReloadResultView>), SceneDiffErrorView>,
) -> Result<(Seq<EntityView>, Seq<ReloadResultView>), SceneDiffErrorView> {
    match rest {
        Err(error) => Err(error),
        Ok((entities, results)) => Ok((entities, first + results)),
    }
}

/// Reloads waiting to be applied, oldest first.
#[derive(Debug, Default, PartialEq, Eq)]
pub struct SceneReloadQueue {
    pending: VecDeque<SceneReloadRequest>,
}

/// The requests as views.
pub open spec fn request_views(requests: Seq<SceneReloadRequest>) -> Seq<RequestView> {
    requests.map_values(|request: SceneReloadRequest| request@)
}

impl View for SceneReloadQueue {
    type V = Seq<RequestView>;

    closed spec fn view(&self) -> Seq<RequestView> {
        request_views(self.pending@)
    }
}

impl SceneReloadQueue {
    /// An empty queue.
    pub fn new() -> (queue: SceneReloadQueue)
        ensures
            queue@ == Seq::<RequestView>::empty(),
    {
        let queue = SceneReloadQueue { pending: VecDeque::new() };
        assert(queue@ =~= Seq::<RequestView>::empty());
        queue
    }

    /// Queues a whole new scene.
    pub fn push_scene(&mut self, source: &str, scene: SceneDocument)
        ensures
            final(self)@ == old(self)@.push((source@, SceneReloadUpdateView::Scene(scene@))),
    {
        let request = SceneReloadRequest::scene(source, scene);
        self.pending.push_back(request);
        assert(self@ =~= old(self)@.push(request@));
    }

    /// Queues a diff.
    pub fn push_diff(&mut self, source: &str, diff: SceneDiff)
        ensures
            final(self)@ == old(self)@.push((source@, SceneReloadUpdateView::Diff(diff@))),
    {
        let request = SceneReloadRequest::diff(source, diff);
        self.pending.push_back(request);
        assert(self@ =~= old(self)@.push(request@));
    }

    /// Applies the oldest reload, if any. It leaves the queue only when it
    /// succeeds; on failure neither the queue nor the target changes.
    pub fn apply_next(&mut self, target: &mut SceneDocument) -> (result: Result<
        Option<SceneReloadResult>,
        SceneReloadError,
    >)
        ensures
            old(self)@.len() == 0 ==> (result matches Ok(None) && final(self)@ == old(self)@ && *final(target)
                == *old(target)),
            old(self)@.len() > 0 ==> (match spec_reload(old(target)@, old(self)@[0].1) {
                Err(error) => result matches Err(e) && e@ == error && final(self)@ == old(self)@
                    && *final(target) == *old(target),
                Ok((entities, count)) => result matches Ok(Some(outcome)) && outcome@ == (old(self)@[0].0, count)
                    && final(target)@ == entities && final(self)@ == old(self)@.drop_first(),
            }),
    {
        if self.pending.len() == 0 {
            return Ok(None);
        }
        let outcome = match self.pending[0].apply_to(target) {
            Ok(outcome) => outcome,
            Err(error) => return Err(error),
        };
        let ghost before = self.pending@;
        let _ = self.pending.pop_front();
        assert(self@ =~= old(self)@.drop_first());
        Ok(Some(outcome))
    }

    /// Applies every queued reload in order, all or nothing: if one fails,
    /// neither the queue nor the target changes; otherwise the queue is
    /// emptied and the outcomes are reported in order.
    pub fn apply_all(&mut self, target: &mut SceneDocument) -> (result: Result<SceneReloadReport, SceneReloadError>)
        ensures
            match spec_reload_all(old(target)@, old(self)@) {
                Err(error) => result matches Err(e) && e@ == error && final(self)@ == old(self)@
                    && *final(target) == *old(target),
                Ok((entities, results)) => result matches Ok(report) && report@ == results && final(target)@
                    == entities && final(self)@.len() == 0,
            },
    {
        let ghost requests = self@;
        let mut staged = target.clone();
        let mut results: Vec<SceneReloadResult> = Vec::new();
        let mut i: usize = 0;
        assert(requests.subrange(0, requests.len() as int) =~= requests);
        assert(result_views(results@) =~= Seq::<ReloadResultView>::empty());
        while i < self.pending.len()
            invariant
                i <= self.pending@.len(),
                requests == request_views(self.pending@),
                *self == *old(self),
                *target == *old(target),
                spec_reload_all(old(target)@, requests) == after_results(
                    result_views(results@),
                    spec_reload_all(staged@, requests.subrange(i as int, requests.len() as int)),
                ),
            decreases self.pending@.len() - i,
        {
            let ghost rest = requests.subrange(i as int, requests.len() as int);
            let ghost done = result_views(results@);
            assert(rest[0] == self.pending@[i as int]@);
            assert(rest.drop_first() =~= requests.subrange(i + 1, requests.len() as int));
            let outcome = match self.pending[i].apply_to(&mut staged) {
                Ok(outcome) => outcome,
                Err(error) => return Err(error),
            };
            results.push(outcome);
            proof {
                assert(result_views(results@) =~= done.push(outcome@));
                let later = spec_reload_all(staged@, requests.subrange(i + 1, requests.len() as int));
                match later {
                    Ok((entities, rs)) => {
                        assert(done + (seq![outcome@] + rs) =~= done.push(outcome@) + rs);
                    },
                    Err(_) => {},
                }
            }
            i = i + 1;
        }
        assert(requests.subrange(i as int, requests.len() as int) =~= Seq::<RequestView>::empty());
        assert(result_views(results@) + Seq::<ReloadResultView>::empty() =~= result_views(results@));
        *target = staged;
        self.pending = VecDeque::new();
        assert(self@ =~= Seq::<RequestView>::empty());
        Ok(SceneReloadReport { results })
    }

    /// The number of queued reloads.
    pub fn len(&self) -> (count: usize)
        ensures
            count == self@.len(),
    {
        self.pending.len()
    }

    /// Whether no reload is queued.
    pub fn is_empty(&self) -> (empty: bool)
        ensures
            empty == (self@.len() == 0),
    {
        self.pending.len() == 0
    }
}

} // verus!
