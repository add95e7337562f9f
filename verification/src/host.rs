//! The validation host's event-loop logic.
//!
//! The host multiplexes inbound commands, prepare-queue completions and a
//! periodic cleanup pulse over the artifact store. Each handler here is the
//! pure decision step of one event: it updates the store and hands back the
//! actions — queue enqueues, result deliveries, file sweeps — that the
//! surrounding runtime must perform, in order. Every handler is mirrored by
//! a spec function that states its whole effect.

use vstd::prelude::*;

use crate::artifact::artifact_id_of;
use crate::artifact::file_name_of;
use crate::artifact::ArtifactId;
use crate::artifact::Pvf;
use crate::artifacts::has_artifact;
use crate::artifacts::kept_entries;
use crate::artifacts::set_state;
use crate::artifacts::state_of;
use crate::artifacts::swept_ids;
use crate::artifacts::ArtifactState;
use crate::artifacts::ArtifactStateView;
use crate::artifacts::Artifacts;
use crate::artifacts::StoreView;
use crate::channel::sender_is_canceled;
use crate::channel::PrepareResultSender;
use crate::channel::ResultSender;
use crate::error::validation_error_of_prepare_error;
use crate::error::PrepareError;
use crate::error::PrepareErrorView;
use crate::error::PrepareResult;
use crate::error::ValidationError;
use crate::error::ValidationErrorView;

verus! {

/// What a successful execution hands back to the caller; the payload's
/// schema is defined by the execution logic outside this core.
#[derive(Debug)]
pub struct ValidationResult {
    /// The worker's output bytes.
    pub payload: Vec<u8>,
}

/// Scheduling priority of a preparation job among concurrently queued jobs.
/// It does not affect jobs already dispatched to a worker.
#[derive(Clone, Copy, Debug, PartialEq, Eq, Structural)]
pub enum Priority {
    /// The default for background and precheck work.
    Normal,
    /// May displace queued normal-priority jobs.
    Critical,
}

/// Mathematical value of a [`PrepareResult`].
pub open spec fn prepare_result_view(r: PrepareResult) -> Result<(), PrepareErrorView> {
    match r {
        Ok(()) => Ok(()),
        Err(e) => Err(e@),
    }
}

/// Copies a preparation outcome so that one outcome can fan out to several
/// waiting callers.
pub fn clone_prepare_result(r: &PrepareResult) -> (c: PrepareResult)
    ensures
        prepare_result_view(c) == prepare_result_view(*r),
{
    match r {
        Ok(()) => Ok(()),
        Err(e) => Err(e.clone()),
    }
}

/// An execution request parked until its artifact's preparation concludes.
pub struct PendingExecutionRequest {
    /// Milliseconds the execution may run.
    pub execution_timeout: u64,
    /// The caller-supplied input.
    pub params: Vec<u8>,
    /// Where the caller awaits the outcome.
    pub result_tx: ResultSender,
}

/// Mathematical value of a [`PendingExecutionRequest`].
pub struct PendingRequestView {
    pub execution_timeout: u64,
    pub params: Seq<u8>,
    pub result_tx: ResultSender,
}

impl View for PendingExecutionRequest {
    type V = PendingRequestView;

    open spec fn view(&self) -> PendingRequestView {
        PendingRequestView {
            execution_timeout: self.execution_timeout,
            params: self.params@,
            result_tx: self.result_tx,
        }
    }
}

/// One step the surrounding runtime must perform on the host's behalf, in
/// the order handed out.
pub enum Action {
    /// Enqueue a preparation job.
    EnqueuePrepare { priority: Priority, pvf: Pvf },
    /// Enqueue an execution of a prepared artifact.
    EnqueueExecute {
        artifact_id: ArtifactId,
        execution_timeout: u64,
        params: Vec<u8>,
        result_tx: ResultSender,
    },
    /// Complete a precheck caller's channel with the preparation outcome.
    SendPrecheckResult { result_tx: PrepareResultSender, result: PrepareResult },
    /// Complete an execute caller's channel with an error.
    SendExecuteError { result_tx: ResultSender, error: ValidationError },
    /// Hand the sweeper a cache file to delete.
    SweepFile { file_name: String },
}

/// Mathematical value of an [`Action`].
pub enum ActionView {
    EnqueuePrepare { priority: Priority, code: Seq<u8> },
    EnqueueExecute {
        artifact_id: Seq<u8>,
        execution_timeout: u64,
        params: Seq<u8>,
        result_tx: ResultSender,
    },
    SendPrecheckResult { result_tx: PrepareResultSender, result: Result<(), PrepareErrorView> },
    SendExecuteError { result_tx: ResultSender, error: ValidationErrorView },
    SweepFile { file_name: Seq<char> },
}

impl View for Action {
    type V = ActionView;

    open spec fn view(&self) -> ActionView {
        match self {
            Action::EnqueuePrepare { priority, pvf } => {
                ActionView::EnqueuePrepare { priority: *priority, code: pvf@ }
            },
            Action::EnqueueExecute { artifact_id, execution_timeout, params, result_tx } => {
                ActionView::EnqueueExecute {
                    artifact_id: artifact_id@,
                    execution_timeout: *execution_timeout,
                    params: params@,
                    result_tx: *result_tx,
                }
            },
            Action::SendPrecheckResult { result_tx, result } => {
                ActionView::SendPrecheckResult {
                    result_tx: *result_tx,
                    result: prepare_result_view(*result),
                }
            },
            Action::SendExecuteError { result_tx, error } => {
                ActionView::SendExecuteError { result_tx: *result_tx, error: error@ }
            },
            Action::SweepFile { file_name } => {
                ActionView::SweepFile { file_name: file_name@ }
            },
        }
    }
}

/// The mathematical value of each action, in order.
pub open spec fn action_views(a: Seq<Action>) -> Seq<ActionView> {
    a.map_values(|x: Action| x@)
}

/// A command a client sends into the host.
pub enum ToHost {
    /// Prepare (or confirm already prepared) without executing.
    PrecheckPvf { pvf: Pvf, result_tx: PrepareResultSender },
    /// Execute the PVF against the given parameters.
    ExecutePvf {
        pvf: Pvf,
        execution_timeout: u64,
        params: Vec<u8>,
        priority: Priority,
        result_tx: ResultSender,
    },
    /// Advisory: these PVFs are about to be needed.
    HeadsUp { active_pvfs: Vec<Pvf> },
}

/// Mathematical value of a [`ToHost`].
pub enum ToHostView {
    Precheck { code: Seq<u8>, result_tx: PrepareResultSender },
    Execute {
        code: Seq<u8>,
        execution_timeout: u64,
        params: Seq<u8>,
        priority: Priority,
        result_tx: ResultSender,
    },
    HeadsUp { codes: Seq<Seq<u8>> },
}

impl View for ToHost {
    type V = ToHostView;

    open spec fn view(&self) -> ToHostView {
        match self {
            ToHost::PrecheckPvf { pvf, result_tx } => {
                ToHostView::Precheck { code: pvf@, result_tx: *result_tx }
            },
            ToHost::ExecutePvf { pvf, execution_timeout, params, priority, result_tx } => {
                ToHostView::Execute {
                    code: pvf@,
                    execution_timeout: *execution_timeout,
                    params: params@,
                    priority: *priority,
                    result_tx: *result_tx,
                }
            },
            ToHost::HeadsUp { active_pvfs } => {
                ToHostView::HeadsUp { codes: active_pvfs@.map_values(|p: Pvf| p@) }
            },
        }
    }
}

/// Mathematical value of the parking map: artifact identity to the requests
/// parked for it, in arrival order.
pub type AwaitView = Seq<(Seq<u8>, Seq<PendingRequestView>)>;

/// No two parking entries share an identity.
pub open spec fn await_wf(a: AwaitView) -> bool {
    forall|i: int, j: int| 0 <= i < j < a.len() ==> a[i].0 != a[j].0
}

/// Whether requests are parked for `id`.
pub open spec fn has_pending(a: AwaitView, id: Seq<u8>) -> bool {
    exists|i: int| 0 <= i < a.len() && a[i].0 == id
}

/// The index of the parking entry for `id`.
pub open spec fn pending_index(a: AwaitView, id: Seq<u8>) -> int {
    choose|i: int| 0 <= i < a.len() && a[i].0 == id
}

/// The requests parked for `id`, oldest first; empty when none are.
pub open spec fn pending_of(a: AwaitView, id: Seq<u8>) -> Seq<PendingRequestView> {
    if has_pending(a, id) {
        a[pending_index(a, id)].1
    } else {
        Seq::empty()
    }
}

/// The parking map with `p` appended for `id`.
pub open spec fn add_pending(a: AwaitView, id: Seq<u8>, p: PendingRequestView) -> AwaitView {
    if has_pending(a, id) {
        a.update(pending_index(a, id), (id, a[pending_index(a, id)].1.push(p)))
    } else {
        a.push((id, seq![p]))
    }
}

/// The parking map with the entry for `id` gone.
pub open spec fn remove_pending(a: AwaitView, id: Seq<u8>) -> AwaitView {
    if has_pending(a, id) {
        a.remove(pending_index(a, id))
    } else {
        a
    }
}

/// In a well-formed parking map the entry for an identity is unique.
pub proof fn lemma_pending_index_unique(a: AwaitView, id: Seq<u8>, i: int)
    requires
        await_wf(a),
        0 <= i < a.len(),
        a[i].0 == id,
    ensures
        pending_index(a, id) == i,
        has_pending(a, id),
{
    assert(has_pending(a, id));
    let j = pending_index(a, id);
    assert(0 <= j < a.len() && a[j].0 == id);
    if i < j {
        assert(a[i].0 != a[j].0);
    } else if j < i {
        assert(a[j].0 != a[i].0);
    }
}

/// The map from an artifact in preparation to the execution requests that
/// wait for it. An entry lives exactly as long as the preparation it waits
/// for; it is drained the moment that preparation concludes.
pub struct AwaitingPrepare {
    entries: Vec<(ArtifactId, Vec<PendingExecutionRequest>)>,
}

impl View for AwaitingPrepare {
    type V = AwaitView;

    closed spec fn view(&self) -> AwaitView {
        self.entries@.map_values(
            |e: (ArtifactId, Vec<PendingExecutionRequest>)|
                (e.0@, e.1@.map_values(|p: PendingExecutionRequest| p@)),
        )
    }
}

impl AwaitingPrepare {
    /// Whether the map keeps one entry per identity.
    pub open spec fn wf(&self) -> bool {
        await_wf(self@)
    }

    /// A parking map with nothing parked.
    pub fn empty() -> (r: AwaitingPrepare)
        ensures
            r@ == Seq::<(Seq<u8>, Seq<PendingRequestView>)>::empty(),
            r.wf(),
    {
        let r = AwaitingPrepare { entries: Vec::new() };
        proof {
            assert(r@ =~= Seq::<(Seq<u8>, Seq<PendingRequestView>)>::empty());
        }
        r
    }

    /// The index of the entry for `id`, if there is one.
    fn find(&self, id: &ArtifactId) -> (r: Option<usize>)
        ensures
            match r {
                Some(i) => i < self@.len() && self@[i as int].0 == id@,
                None => !has_pending(self@, id@),
            },
    {
        let mut i: usize = 0;
        while i < self.entries.len()
            invariant
                i <= self.entries.len(),
                self@.len() == self.entries@.len(),
                forall|j: int| 0 <= j < i ==> self@[j].0 != id@,
                forall|j: int|
                    0 <= j < self.entries@.len() ==> self@[j].0 == self.entries@[j].0@,
            decreases self.entries.len() - i,
        {
            if self.entries[i].0.equals(id) {
                return Some(i);
            }
            i = i + 1;
        }
        None
    }

    /// Parks one more execution request for `id`.
    pub fn add(
        &mut self,
        artifact_id: ArtifactId,
        execution_timeout: u64,
        params: Vec<u8>,
        result_tx: ResultSender,
    )
        requires
            old(self).wf(),
        ensures
            final(self)@ == add_pending(
                old(self)@,
                artifact_id@,
                (PendingRequestView { execution_timeout, params: params@, result_tx }),
            ),
            final(self).wf(),
    {
        let request = PendingExecutionRequest { execution_timeout, params, result_tx };
        let ghost requestv = request@;
        let ghost idv = artifact_id@;
        match self.find(&artifact_id) {
            Some(i) => {
                proof {
                    lemma_pending_index_unique(self@, idv, i as int);
                }
                let (id, mut list) = self.entries.remove(i);
                list.push(request);
                self.entries.insert(i, (id, list));
                proof {
                    assert(self@ =~~= add_pending(old(self)@, idv, requestv));
                    lemma_update_await_wf(old(self)@, idv, requestv);
                }
            },
            None => {
                let mut list: Vec<PendingExecutionRequest> = Vec::new();
                list.push(request);
                self.entries.push((artifact_id, list));
                proof {
                    assert(self@ =~~= add_pending(old(self)@, idv, requestv));
                    assert(self@.len() == old(self)@.len() + 1);
                    assert(forall|j: int|
                        0 <= j < old(self)@.len() ==> self@[j] == old(self)@[j]);
                    assert(self@[self@.len() - 1].0 == idv);
                }
            },
        }
    }

    /// Unparks every request waiting for `id`, oldest first; empty when none
    /// were parked.
    pub fn take(&mut self, artifact_id: &ArtifactId) -> (r: Vec<PendingExecutionRequest>)
        requires
            old(self).wf(),
        ensures
            r@.map_values(|p: PendingExecutionRequest| p@) == pending_of(old(self)@, artifact_id@),
            final(self)@ == remove_pending(old(self)@, artifact_id@),
            final(self).wf(),
            !has_pending(final(self)@, artifact_id@),
    {
        let ghost idv = artifact_id@;
        match self.find(artifact_id) {
            Some(i) => {
                proof {
                    lemma_pending_index_unique(self@, idv, i as int);
                }
                let (_id, list) = self.entries.remove(i);
                proof {
                    assert(self@ =~= remove_pending(old(self)@, idv));
                    assert forall|k: int| 0 <= k < self@.len() implies self@[k].0 != idv by {
                        if k < i as int {
                            assert(old(self)@[k].0 != old(self)@[i as int].0);
                        } else {
                            assert(old(self)@[k + 1].0 != old(self)@[i as int].0);
                        }
                    }
                }
                list
            },
            None => {
                proof {
                    assert(pending_of(old(self)@, idv) =~= Seq::<PendingRequestView>::empty());
                }
                let r: Vec<PendingExecutionRequest> = Vec::new();
                proof {
                    assert(r@.map_values(|p: PendingExecutionRequest| p@) =~= Seq::<
                        PendingRequestView,
                    >::empty());
                }
                r
            },
        }
    }

    /// Asks each result channel parked for `id` whether its caller has lost
    /// interest, oldest request first. The answers depend on the outside
    /// world; only their number is pinned down.
    pub fn canceled_flags(&self, artifact_id: &ArtifactId) -> (r: Vec<bool>)
        requires
            self.wf(),
        ensures
            r@.len() == pending_of(self@, artifact_id@).len(),
    {
        match self.find(artifact_id) {
            Some(i) => {
                proof {
                    lemma_pending_index_unique(self@, artifact_id@, i as int);
                }
                let list = &self.entries[i].1;
                let mut r: Vec<bool> = Vec::new();
                let mut k: usize = 0;
                while k < list.len()
                    invariant
                        r@.len() == k <= list@.len(),
                    decreases list@.len() - k,
                {
                    r.push(sender_is_canceled(&list[k].result_tx));
                    k = k + 1;
                }
                proof {
                    assert(pending_of(self@, artifact_id@).len() == list@.len());
                }
                r
            },
            None => Vec::new(),
        }
    }
}

/// Appending a request for one identity keeps the parking map's identities
/// unique.
proof fn lemma_update_await_wf(a: AwaitView, id: Seq<u8>, p: PendingRequestView)
    requires
        await_wf(a),
        has_pending(a, id),
    ensures
        await_wf(add_pending(a, id, p)),
{
    let i = pending_index(a, id);
    let a2 = add_pending(a, id, p);
    assert(forall|j: int| 0 <= j < a2.len() ==> a2[j].0 == a[j].0);
}


/// Configuration of the validation host, supplied at startup.
pub struct Config {
    /// The root directory where the prepared artifacts are stored.
    pub cache_path: String,
    /// The program spawned as a prepare worker.
    pub prepare_worker_program_path: String,
    /// Milliseconds allotted for a prepare worker to spawn and report back.
    pub prepare_worker_spawn_timeout: u64,
    /// Prepare workers spawned for jobs below critical priority, at most.
    pub prepare_workers_soft_max_num: usize,
    /// Prepare workers spawned in all, at most.
    pub prepare_workers_hard_max_num: usize,
    /// The program spawned as an execute worker.
    pub execute_worker_program_path: String,
    /// Milliseconds allotted for an execute worker to spawn and report back.
    pub execute_worker_spawn_timeout: u64,
    /// Execute workers running at the same time, at most.
    pub execute_workers_max_num: usize,
}

/// Milliseconds between two cleanup pulses.
pub const CLEANUP_PULSE_INTERVAL_MS: u64 = 3600000;

/// Milliseconds a prepared artifact stays cached after it was last needed.
pub const ARTIFACT_TTL_MS: u64 = 86400000;

impl Config {
    /// The standard configuration: one prepare worker, two execute workers,
    /// three seconds for either kind to spawn.
    pub fn new(cache_path: String, program_path: String) -> (r: Config)
        ensures
            r.cache_path@ == cache_path@,
            r.prepare_worker_program_path@ == program_path@,
            r.execute_worker_program_path@ == program_path@,
            r.prepare_worker_spawn_timeout == 3000,
            r.prepare_workers_soft_max_num == 1,
            r.prepare_workers_hard_max_num == 1,
            r.execute_worker_spawn_timeout == 3000,
            r.execute_workers_max_num == 2,
    {
        let program_path_clone = program_path.clone();
        Config {
            cache_path,
            prepare_worker_program_path: program_path_clone,
            prepare_worker_spawn_timeout: 3000,
            prepare_workers_soft_max_num: 1,
            prepare_workers_hard_max_num: 1,
            execute_worker_program_path: program_path,
            execute_worker_spawn_timeout: 3000,
            execute_workers_max_num: 2,
        }
    }
}

/// The whole effect of a precheck command: the store afterwards and the
/// actions handed out.
///
/// A prepared artifact answers at once and has its eviction clock refreshed;
/// one being prepared queues the caller with no second job; a cached failure
/// is replayed; an unknown artifact is registered as preparing and exactly
/// one normal-priority job is enqueued.
pub open spec fn spec_precheck(
    s: StoreView,
    code: Seq<u8>,
    result_tx: PrepareResultSender,
    now: u64,
) -> (StoreView, Seq<ActionView>) {
    let id = artifact_id_of(code);
    if has_artifact(s, id) {
        match state_of(s, id) {
            ArtifactStateView::Prepared { last_time_needed } => (
                set_state(s, id, ArtifactStateView::Prepared { last_time_needed: now }),
                seq![ActionView::SendPrecheckResult { result_tx, result: Ok(()) }],
            ),
            ArtifactStateView::Preparing { waiting } => (
                set_state(s, id, ArtifactStateView::Preparing { waiting: waiting.push(result_tx) }),
                seq![],
            ),
            ArtifactStateView::Failed(e) => (
                s,
                seq![ActionView::SendPrecheckResult { result_tx, result: Err(e) }],
            ),
        }
    } else {
        (
            s.push((id, ArtifactStateView::Preparing { waiting: seq![result_tx] })),
            seq![ActionView::EnqueuePrepare { priority: Priority::Normal, code }],
        )
    }
}

/// Handles a precheck command: have `pvf` prepared, or confirm it already
/// was, and let `result_sender` know the outcome once it is known.
pub fn handle_precheck_pvf(
    artifacts: &mut Artifacts,
    pvf: Pvf,
    result_sender: PrepareResultSender,
    now: u64,
) -> (actions: Vec<Action>)
    requires
        old(artifacts).wf(),
    ensures
        final(artifacts).wf(),
        final(artifacts)@ == spec_precheck(old(artifacts)@, pvf@, result_sender, now).0,
        action_views(actions@) == spec_precheck(old(artifacts)@, pvf@, result_sender, now).1,
{
    let artifact_id = pvf.as_artifact_id();
    let ghost idv = artifact_id@;
    let mut actions: Vec<Action> = Vec::new();
    let found = artifacts.get(&artifact_id);
    match found {
        Some(ArtifactState::Prepared { .. }) => {
            artifacts.touch(&artifact_id, now);
            actions.push(Action::SendPrecheckResult { result_tx: result_sender, result: Ok(()) });
            proof {
                assert(action_views(actions@) =~= spec_precheck(
                    old(artifacts)@,
                    pvf@,
                    result_sender,
                    now,
                ).1);
            }
        },
        Some(ArtifactState::Preparing { .. }) => {
            artifacts.push_waiter(&artifact_id, result_sender);
            proof {
                assert(action_views(actions@) =~= spec_precheck(
                    old(artifacts)@,
                    pvf@,
                    result_sender,
                    now,
                ).1);
            }
        },
        Some(ArtifactState::FailedToProcess(e)) => {
            let err = e.clone();
            actions.push(Action::SendPrecheckResult { result_tx: result_sender, result: Err(err) });
            proof {
                assert(action_views(actions@) =~= spec_precheck(
                    old(artifacts)@,
                    pvf@,
                    result_sender,
                    now,
                ).1);
            }
        },
        None => {
            let mut waiting: Vec<PrepareResultSender> = Vec::new();
            waiting.push(result_sender);
            proof {
                assert(waiting@ =~= seq![result_sender]);
            }
            artifacts.insert_preparing(artifact_id, waiting);
            actions.push(Action::EnqueuePrepare { priority: Priority::Normal, pvf });
            proof {
                assert(action_views(actions@) =~= spec_precheck(
                    old(artifacts)@,
                    pvf@,
                    result_sender,
                    now,
                ).1);
            }
        },
    }
    actions
}

/// The whole effect of an execute command: the store and parking map
/// afterwards and the actions handed out.
///
/// A prepared artifact is forwarded to the execute queue at once; one being
/// prepared has the request parked with no second job; a cached failure is
/// answered with the translated error and never reaches the execute queue;
/// an unknown artifact is registered as preparing, one job is enqueued at
/// the caller's priority, and the request is parked.
pub open spec fn spec_execute(
    s: StoreView,
    aw: AwaitView,
    code: Seq<u8>,
    execution_timeout: u64,
    params: Seq<u8>,
    priority: Priority,
    result_tx: ResultSender,
    now: u64,
) -> (StoreView, AwaitView, Seq<ActionView>) {
    let id = artifact_id_of(code);
    let request = PendingRequestView { execution_timeout, params, result_tx };
    if has_artifact(s, id) {
        match state_of(s, id) {
            ArtifactStateView::Prepared { last_time_needed } => (
                set_state(s, id, ArtifactStateView::Prepared { last_time_needed: now }),
                aw,
                seq![
                    ActionView::EnqueueExecute {
                        artifact_id: id,
                        execution_timeout,
                        params,
                        result_tx,
                    },
                ],
            ),
            ArtifactStateView::Preparing { waiting } => (s, add_pending(aw, id, request), seq![]),
            ArtifactStateView::Failed(e) => (
                s,
                aw,
                seq![
                    ActionView::SendExecuteError {
                        result_tx,
                        error: validation_error_of_prepare_error(e),
                    },
                ],
            ),
        }
    } else {
        (
            s.push((id, ArtifactStateView::Preparing { waiting: Seq::empty() })),
            add_pending(aw, id, request),
            seq![ActionView::EnqueuePrepare { priority, code }],
        )
    }
}

/// Handles an execute command: run `pvf` against `params` within
/// `execution_timeout` milliseconds, preparing it first if need be, and let
/// `result_tx` know the outcome.
pub fn handle_execute_pvf(
    artifacts: &mut Artifacts,
    awaiting_prepare: &mut AwaitingPrepare,
    pvf: Pvf,
    execution_timeout: u64,
    params: Vec<u8>,
    priority: Priority,
    result_tx: ResultSender,
    now: u64,
) -> (actions: Vec<Action>)
    requires
        old(artifacts).wf(),
        old(awaiting_prepare).wf(),
    ensures
        final(artifacts).wf(),
        final(awaiting_prepare).wf(),
        ({
            let step = spec_execute(
                old(artifacts)@,
                old(awaiting_prepare)@,
                pvf@,
                execution_timeout,
                params@,
                priority,
                result_tx,
                now,
            );
            &&& final(artifacts)@ == step.0
            &&& final(awaiting_prepare)@ == step.1
            &&& action_views(actions@) == step.2
        }),
{
    let artifact_id = pvf.as_artifact_id();
    let ghost idv = artifact_id@;
    let ghost step = spec_execute(
        old(artifacts)@,
        old(awaiting_prepare)@,
        pvf@,
        execution_timeout,
        params@,
        priority,
        result_tx,
        now,
    );
    let mut actions: Vec<Action> = Vec::new();
    let found = artifacts.get(&artifact_id);
    match found {
        Some(ArtifactState::Prepared { .. }) => {
            artifacts.touch(&artifact_id, now);
            actions.push(Action::EnqueueExecute {
                artifact_id,
                execution_timeout,
                params,
                result_tx,
            });
            proof {
                assert(action_views(actions@) =~= step.2);
            }
        },
        Some(ArtifactState::Preparing { .. }) => {
            awaiting_prepare.add(artifact_id, execution_timeout, params, result_tx);
            proof {
                assert(action_views(actions@) =~= step.2);
            }
        },
        Some(ArtifactState::FailedToProcess(e)) => {
            let error = ValidationError::from_prepare_error(e);
            actions.push(Action::SendExecuteError { result_tx, error });
            proof {
                assert(action_views(actions@) =~= step.2);
            }
        },
        None => {
            let empty_waiting: Vec<PrepareResultSender> = Vec::new();
            proof {
                assert(empty_waiting@ =~= Seq::<PrepareResultSender>::empty());
            }
            artifacts.insert_preparing(artifact_id.clone(), empty_waiting);
            awaiting_prepare.add(artifact_id, execution_timeout, params, result_tx);
            actions.push(Action::EnqueuePrepare { priority, pvf });
            proof {
                assert(action_views(actions@) =~= step.2);
            }
        },
    }
    actions
}


/// The code bytes of each PVF in the list, in order.
pub open spec fn pvf_codes(pvfs: Seq<Pvf>) -> Seq<Seq<u8>> {
    pvfs.map_values(|p: Pvf| p@)
}

/// The whole effect of one heads-up entry. A prepared artifact only has its
/// eviction clock refreshed; one being prepared or one that failed is left
/// alone (a failure is never retried); an unknown one is registered as
/// preparing and a normal-priority job is enqueued.
pub open spec fn spec_heads_up_one(s: StoreView, code: Seq<u8>, now: u64) -> (
    StoreView,
    Seq<ActionView>,
) {
    let id = artifact_id_of(code);
    if has_artifact(s, id) {
        match state_of(s, id) {
            ArtifactStateView::Prepared { last_time_needed } => (
                set_state(s, id, ArtifactStateView::Prepared { last_time_needed: now }),
                seq![],
            ),
            ArtifactStateView::Preparing { waiting } => (s, seq![]),
            ArtifactStateView::Failed(e) => (s, seq![]),
        }
    } else {
        (
            s.push((id, ArtifactStateView::Preparing { waiting: Seq::empty() })),
            seq![ActionView::EnqueuePrepare { priority: Priority::Normal, code }],
        )
    }
}

/// The whole effect of a heads-up command, entry by entry from the front.
pub open spec fn spec_heads_up(s: StoreView, codes: Seq<Seq<u8>>, now: u64) -> (
    StoreView,
    Seq<ActionView>,
)
    decreases codes.len(),
{
    if codes.len() == 0 {
        (s, seq![])
    } else {
        let first = spec_heads_up_one(s, codes[0], now);
        let rest = spec_heads_up(first.0, codes.drop_first(), now);
        (rest.0, first.1 + rest.1)
    }
}

/// Handles a heads-up command: the listed PVFs are about to be needed, so
/// refresh the prepared ones and start preparing the unknown ones. No reply
/// is delivered to anyone.
pub fn handle_heads_up(artifacts: &mut Artifacts, active_pvfs: Vec<Pvf>, now: u64) -> (actions:
    Vec<Action>)
    requires
        old(artifacts).wf(),
    ensures
        final(artifacts).wf(),
        final(artifacts)@ == spec_heads_up(old(artifacts)@, pvf_codes(active_pvfs@), now).0,
        action_views(actions@) == spec_heads_up(old(artifacts)@, pvf_codes(active_pvfs@), now).1,
{
    let ghost whole = spec_heads_up(old(artifacts)@, pvf_codes(active_pvfs@), now);
    let mut pvfs = active_pvfs;
    let mut actions: Vec<Action> = Vec::new();
    while pvfs.len() > 0
        invariant
            artifacts.wf(),
            whole == spec_heads_up(old(artifacts)@, pvf_codes(active_pvfs@), now),
            whole.0 == spec_heads_up(artifacts@, pvf_codes(pvfs@), now).0,
            whole.1 == action_views(actions@) + spec_heads_up(artifacts@, pvf_codes(pvfs@), now).1,
        decreases pvfs@.len(),
    {
        let ghost pre_store = artifacts@;
        let ghost pre_codes = pvf_codes(pvfs@);
        let ghost pre_actions = action_views(actions@);
        let pvf = pvfs.remove(0);
        proof {
            assert(pvf_codes(pvfs@) =~= pre_codes.drop_first());
            assert(pre_codes[0] == pvf@);
        }
        let ghost one = spec_heads_up_one(pre_store, pvf@, now);
        let artifact_id = pvf.as_artifact_id();
        let found = artifacts.get(&artifact_id);
        match found {
            Some(ArtifactState::Prepared { .. }) => {
                artifacts.touch(&artifact_id, now);
            },
            Some(ArtifactState::Preparing { .. }) => {},
            Some(ArtifactState::FailedToProcess(_)) => {},
            None => {
                let empty_waiting: Vec<PrepareResultSender> = Vec::new();
                proof {
                    assert(empty_waiting@ =~= Seq::<PrepareResultSender>::empty());
                }
                artifacts.insert_preparing(artifact_id, empty_waiting);
                actions.push(Action::EnqueuePrepare { priority: Priority::Normal, pvf });
            },
        }
        proof {
            assert(artifacts@ == one.0);
            assert(action_views(actions@) =~= pre_actions + one.1);
            let rest = spec_heads_up(artifacts@, pvf_codes(pvfs@), now);
            assert(spec_heads_up(pre_store, pre_codes, now).0 == rest.0);
            assert(spec_heads_up(pre_store, pre_codes, now).1 == one.1 + rest.1);
            assert(pre_actions + (one.1 + rest.1) =~= (pre_actions + one.1) + rest.1);
        }
    }
    proof {
        assert(pvf_codes(pvfs@) =~= Seq::<Seq<u8>>::empty());
        assert(spec_heads_up(artifacts@, pvf_codes(pvfs@), now).1 =~= Seq::<ActionView>::empty());
        assert(action_views(actions@) + Seq::<ActionView>::empty() =~= action_views(actions@));
    }
    actions
}


/// One precheck reply per waiting caller, each carrying the same outcome:
/// the fan-out of a single preparation to everyone who asked.
pub open spec fn precheck_sends(
    waiting: Seq<PrepareResultSender>,
    result: Result<(), PrepareErrorView>,
) -> Seq<ActionView> {
    Seq::new(waiting.len(), |i: int| ActionView::SendPrecheckResult {
        result_tx: waiting[i],
        result,
    })
}

/// The canceled-flags that remain once the first `from` requests are done
/// with: flags beyond the list's end count as "not canceled".
pub open spec fn flags_from(canceled: Seq<bool>, from: int) -> Seq<bool> {
    if 0 <= from <= canceled.len() {
        canceled.skip(from)
    } else {
        Seq::empty()
    }
}

/// What becomes of each parked execution request once its artifact's
/// preparation concluded with `result`, front to back. A request whose
/// caller already dropped its result channel (its canceled flag is set) is
/// discarded without an action; on a failed preparation the rest are
/// answered with the translated error and never reach the execute queue; on
/// success each is forwarded to the execute queue.
pub open spec fn spec_dispatch_pending(
    pending: Seq<PendingRequestView>,
    canceled: Seq<bool>,
    id: Seq<u8>,
    result: Result<(), PrepareErrorView>,
) -> Seq<ActionView>
    decreases pending.len(),
{
    if pending.len() == 0 {
        seq![]
    } else {
        let head = pending[0];
        let head_canceled = canceled.len() > 0 && canceled[0];
        let rest = spec_dispatch_pending(
            pending.drop_first(),
            flags_from(canceled, 1),
            id,
            result,
        );
        let this = if head_canceled {
            seq![]
        } else {
            match result {
                Ok(()) => seq![
                    ActionView::EnqueueExecute {
                        artifact_id: id,
                        execution_timeout: head.execution_timeout,
                        params: head.params,
                        result_tx: head.result_tx,
                    },
                ],
                Err(e) => seq![
                    ActionView::SendExecuteError {
                        result_tx: head.result_tx,
                        error: validation_error_of_prepare_error(e),
                    },
                ],
            }
        };
        this + rest
    }
}

/// The state an artifact settles into once its preparation concluded.
pub open spec fn concluded_state(result: Result<(), PrepareErrorView>, now: u64) -> ArtifactStateView {
    match result {
        Ok(()) => ArtifactStateView::Prepared { last_time_needed: now },
        Err(e) => ArtifactStateView::Failed(e),
    }
}

/// The whole effect of a preparation's conclusion, given which parked
/// requests' callers had already lost interest.
///
/// If the artifact is not recorded as preparing — which correct operation
/// never brings about — the event is dropped whole: no state change, no
/// actions. Otherwise every waiting precheck caller is sent the same
/// outcome, the parked execution requests are drained as
/// [`spec_dispatch_pending`] says, and the artifact settles into `Prepared`
/// (stamped `now`) or `FailedToProcess`.
pub open spec fn spec_prepare_done(
    s: StoreView,
    aw: AwaitView,
    id: Seq<u8>,
    result: Result<(), PrepareErrorView>,
    canceled: Seq<bool>,
    now: u64,
) -> (StoreView, AwaitView, Seq<ActionView>) {
    if !has_artifact(s, id) || !(state_of(s, id) is Preparing) {
        (s, aw, seq![])
    } else {
        let waiting = state_of(s, id)->Preparing_waiting;
        let sends = precheck_sends(waiting, result);
        let dispatches = spec_dispatch_pending(pending_of(aw, id), canceled, id, result);
        (
            set_state(s, id, concluded_state(result, now)),
            remove_pending(aw, id),
            sends + dispatches,
        )
    }
}

/// Applies a preparation's conclusion, with the parked callers' loss of
/// interest supplied as data: `canceled` holds, for each request parked for
/// `artifact_id` in arrival order, whether its result channel is already
/// dead. Flags past the end of the parked list are taken as "not canceled".
#[verifier::loop_isolation(false)]
pub fn apply_prepare_done(
    artifacts: &mut Artifacts,
    awaiting_prepare: &mut AwaitingPrepare,
    artifact_id: &ArtifactId,
    result: PrepareResult,
    canceled: &Vec<bool>,
    now: u64,
) -> (actions: Vec<Action>)
    requires
        old(artifacts).wf(),
        old(awaiting_prepare).wf(),
    ensures
        final(artifacts).wf(),
        final(awaiting_prepare).wf(),
        ({
            let step = spec_prepare_done(
                old(artifacts)@,
                old(awaiting_prepare)@,
                artifact_id@,
                prepare_result_view(result),
                canceled@,
                now,
            );
            &&& final(artifacts)@ == step.0
            &&& final(awaiting_prepare)@ == step.1
            &&& action_views(actions@) == step.2
        }),
{
    let ghost idv = artifact_id@;
    let ghost resv = prepare_result_view(result);
    let ghost step = spec_prepare_done(
        old(artifacts)@,
        old(awaiting_prepare)@,
        idv,
        resv,
        canceled@,
        now,
    );
    let proceed = match artifacts.get(artifact_id) {
        Some(ArtifactState::Preparing { .. }) => true,
        _ => false,
    };
    if !proceed {
        let actions: Vec<Action> = Vec::new();
        proof {
            assert(action_views(actions@) =~= step.2);
        }
        return actions;
    }
    let new_state = match &result {
        Ok(()) => ArtifactState::Prepared { last_time_needed: now },
        Err(e) => ArtifactState::FailedToProcess(e.clone()),
    };
    proof {
        assert(new_state@ == concluded_state(resv, now));
    }
    let ghost waiting = state_of(old(artifacts)@, idv)->Preparing_waiting;
    let mut waiters = artifacts.conclude_preparing(artifact_id, new_state);
    let mut actions: Vec<Action> = Vec::new();
    let ghost sends = precheck_sends(waiting, resv);
    let ghost mut done: int = 0;
    while waiters.len() > 0
        invariant
            0 <= done <= waiting.len(),
            done + waiters@.len() == waiting.len(),
            forall|j: int| 0 <= j < waiters@.len() ==> waiters@[j] == waiting[done + j],
            action_views(actions@) == sends.take(done),
            resv == prepare_result_view(result),
        decreases waiters@.len(),
    {
        let ghost pre_actions = action_views(actions@);
        let w = waiters.remove(0);
        proof {
            assert(w == waiting[done]);
        }
        actions.push(Action::SendPrecheckResult {
            result_tx: w,
            result: clone_prepare_result(&result),
        });
        proof {
            assert(action_views(actions@) =~= pre_actions.push(
                ActionView::SendPrecheckResult { result_tx: w, result: resv },
            ));
            assert(sends[done] == (ActionView::SendPrecheckResult {
                result_tx: waiting[done],
                result: resv,
            }));
            assert(sends.take(done + 1) =~= sends.take(done).push(sends[done]));
            done = done + 1;
        }
    }
    proof {
        assert(sends.take(waiting.len() as int) =~= sends);
    }
    let mut pending = awaiting_prepare.take(artifact_id);
    let ghost pend_full = pending_of(old(awaiting_prepare)@, idv);
    let ghost dispatches = spec_dispatch_pending(pend_full, canceled@, idv, resv);
    proof {
        assert(pending@.map_values(|p: PendingExecutionRequest| p@) == pend_full);
        assert(pend_full.len() == pending@.len());
        assert(pend_full.skip(0) =~= pend_full);
        assert(flags_from(canceled@, 0) =~= canceled@);
        assert(spec_dispatch_pending(pend_full.skip(0), flags_from(canceled@, 0), idv, resv)
            == dispatches);
    }
    let pending_count = pending.len();
    proof {
        assert(pend_full.len() == pending_count);
    }
    let mut idx: usize = 0;
    while pending.len() > 0
        invariant
            0 <= idx <= pend_full.len(),
            pend_full.len() <= usize::MAX,
            idx + pending@.len() == pend_full.len(),
            forall|j: int| 0 <= j < pending@.len() ==> (#[trigger] pending@[j])@ == pend_full[idx
                + j],
            sends + dispatches == action_views(actions@) + spec_dispatch_pending(
                pend_full.skip(idx as int),
                flags_from(canceled@, idx as int),
                idv,
                resv,
            ),
            resv == prepare_result_view(result),
        decreases pending@.len(),
    {
        let ghost rem = pend_full.skip(idx as int);
        let ghost rem_flags = flags_from(canceled@, idx as int);
        let ghost pre_actions = action_views(actions@);
        let req = pending.remove(0);
        proof {
            assert(req@ == rem[0]);
            assert(pend_full.skip(idx + 1) =~= rem.drop_first());
            assert(flags_from(canceled@, idx + 1) =~= flags_from(rem_flags, 1));
        }
        let request_canceled = idx < canceled.len() && canceled[idx];
        proof {
            assert(request_canceled == (rem_flags.len() > 0 && rem_flags[0]));
        }
        let PendingExecutionRequest { execution_timeout, params, result_tx } = req;
        if !request_canceled {
            match &result {
                Ok(()) => {
                    actions.push(Action::EnqueueExecute {
                        artifact_id: artifact_id.clone(),
                        execution_timeout,
                        params,
                        result_tx,
                    });
                },
                Err(e) => {
                    let error = ValidationError::from_prepare_error(e);
                    actions.push(Action::SendExecuteError { result_tx, error });
                },
            }
        }
        proof {
            let rest = spec_dispatch_pending(
                pend_full.skip(idx + 1),
                flags_from(canceled@, idx + 1),
                idv,
                resv,
            );
            let one = spec_dispatch_pending(rem, rem_flags, idv, resv);
            assert(spec_dispatch_pending(rem.drop_first(), flags_from(rem_flags, 1), idv, resv)
                == rest);
            if request_canceled {
                assert(action_views(actions@) =~= pre_actions);
                assert(one =~= Seq::<ActionView>::empty() + rest);
                assert(Seq::<ActionView>::empty() + rest =~= rest);
            } else {
                let head_action = match resv {
                    Ok(()) => ActionView::EnqueueExecute {
                        artifact_id: idv,
                        execution_timeout: rem[0].execution_timeout,
                        params: rem[0].params,
                        result_tx: rem[0].result_tx,
                    },
                    Err(e) => ActionView::SendExecuteError {
                        result_tx: rem[0].result_tx,
                        error: validation_error_of_prepare_error(e),
                    },
                };
                assert(action_views(actions@) =~= pre_actions.push(head_action));
                assert(one =~= seq![head_action] + rest);
                assert(seq![head_action] + rest =~= rest.insert(0, head_action));
                assert(pre_actions.push(head_action) + rest =~= pre_actions + (seq![head_action]
                    + rest));
            }
            assert(pre_actions + one =~= action_views(actions@) + rest);
        }
        idx = idx + 1;
    }
    proof {
        assert(pend_full.skip(pend_full.len() as int) =~= Seq::<PendingRequestView>::empty());
        assert(spec_dispatch_pending(
            pend_full.skip(pend_full.len() as int),
            flags_from(canceled@, pend_full.len() as int),
            idv,
            resv,
        ) =~= Seq::<ActionView>::empty());
        assert(action_views(actions@) + Seq::<ActionView>::empty() =~= action_views(actions@));
        assert(action_views(actions@) =~= step.2);
    }
    actions
}




/// Handles a preparation's conclusion as the event loop receives it. The
/// host first asks each parked request's result channel whether its caller
/// is still interested — the one cheap check before an execute-queue slot
/// would be spent — and then applies the conclusion.
///
/// Which callers have lost interest is the outside world's choice, so the
/// contract promises the effect for some such set of answers, one per
/// parked request.
pub fn handle_prepare_done(
    artifacts: &mut Artifacts,
    awaiting_prepare: &mut AwaitingPrepare,
    artifact_id: &ArtifactId,
    result: PrepareResult,
    now: u64,
) -> (actions: Vec<Action>)
    requires
        old(artifacts).wf(),
        old(awaiting_prepare).wf(),
    ensures
        final(artifacts).wf(),
        final(awaiting_prepare).wf(),
        exists|canceled: Seq<bool>|
            {
                let step = #[trigger] spec_prepare_done(
                    old(artifacts)@,
                    old(awaiting_prepare)@,
                    artifact_id@,
                    prepare_result_view(result),
                    canceled,
                    now,
                );
                &&& canceled.len() == pending_of(old(awaiting_prepare)@, artifact_id@).len()
                &&& final(artifacts)@ == step.0
                &&& final(awaiting_prepare)@ == step.1
                &&& action_views(actions@) == step.2
            },
{
    let canceled = awaiting_prepare.canceled_flags(artifact_id);
    let ghost flags = canceled@;
    let actions = apply_prepare_done(artifacts, awaiting_prepare, artifact_id, result, &canceled, now);
    proof {
        let step = spec_prepare_done(
            old(artifacts)@,
            old(awaiting_prepare)@,
            artifact_id@,
            prepare_result_view(result),
            flags,
            now,
        );
        assert(flags.len() == pending_of(old(awaiting_prepare)@, artifact_id@).len());
        assert(final(artifacts)@ == step.0);
    }
    actions
}

/// The file-sweep actions of one cleanup pass: one per evicted artifact, in
/// store order, each naming the artifact's cache file.
pub open spec fn sweep_actions(s: StoreView, artifact_ttl: u64, now: u64) -> Seq<ActionView> {
    swept_ids(s, artifact_ttl, now).map_values(
        |id: Seq<u8>| ActionView::SweepFile { file_name: file_name_of(id) },
    )
}

/// Handles the periodic cleanup pulse: every prepared artifact not needed
/// for longer than `artifact_ttl` milliseconds leaves the store, and one
/// sweep action per evicted artifact hands its cache file to the sweeper.
#[verifier::loop_isolation(false)]
pub fn handle_cleanup_pulse(artifacts: &mut Artifacts, artifact_ttl: u64, now: u64) -> (actions:
    Vec<Action>)
    requires
        old(artifacts).wf(),
    ensures
        final(artifacts).wf(),
        final(artifacts)@ == kept_entries(old(artifacts)@, artifact_ttl, now),
        action_views(actions@) == sweep_actions(old(artifacts)@, artifact_ttl, now),
{
    let mut to_remove = artifacts.prune(artifact_ttl, now);
    let ghost swept = swept_ids(old(artifacts)@, artifact_ttl, now);
    let ghost all_sweeps = sweep_actions(old(artifacts)@, artifact_ttl, now);
    let ghost id_count = to_remove@.len();
    let mut actions: Vec<Action> = Vec::new();
    let ghost mut done: int = 0;
    proof {
        assert(crate::artifacts::id_views(to_remove@) == swept);
        assert(swept.len() == id_count);
    }
    while to_remove.len() > 0
        invariant
            0 <= done <= id_count,
            done + to_remove@.len() == id_count,
            forall|j: int| 0 <= j < to_remove@.len() ==> (#[trigger] to_remove@[j])@ == swept[done
                + j],
            action_views(actions@) == all_sweeps.take(done),
        decreases to_remove@.len(),
    {
        let ghost pre_actions = action_views(actions@);
        let id = to_remove.remove(0);
        proof {
            assert(id@ == swept[done]);
        }
        let file_name = id.file_name();
        actions.push(Action::SweepFile { file_name });
        proof {
            assert(action_views(actions@) =~= pre_actions.push(
                ActionView::SweepFile { file_name: file_name_of(swept[done]) },
            ));
            assert(all_sweeps[done] == (ActionView::SweepFile {
                file_name: file_name_of(swept[done]),
            }));
            assert(all_sweeps.take(done + 1) =~= all_sweeps.take(done).push(all_sweeps[done]));
            done = done + 1;
        }
    }
    proof {
        assert(all_sweeps.take(all_sweeps.len() as int) =~= all_sweeps);
    }
    actions
}

/// The whole effect of one inbound client command.
pub open spec fn spec_to_host(s: StoreView, aw: AwaitView, cmd: ToHostView, now: u64) -> (
    StoreView,
    AwaitView,
    Seq<ActionView>,
) {
    match cmd {
        ToHostView::Precheck { code, result_tx } => {
            let step = spec_precheck(s, code, result_tx, now);
            (step.0, aw, step.1)
        },
        ToHostView::Execute { code, execution_timeout, params, priority, result_tx } => {
            spec_execute(s, aw, code, execution_timeout, params, priority, result_tx, now)
        },
        ToHostView::HeadsUp { codes } => {
            let step = spec_heads_up(s, codes, now);
            (step.0, aw, step.1)
        },
    }
}

/// Dispatches one inbound client command to its handler.
pub fn handle_to_host(
    artifacts: &mut Artifacts,
    awaiting_prepare: &mut AwaitingPrepare,
    to_host: ToHost,
    now: u64,
) -> (actions: Vec<Action>)
    requires
        old(artifacts).wf(),
        old(awaiting_prepare).wf(),
    ensures
        final(artifacts).wf(),
        final(awaiting_prepare).wf(),
        ({
            let step = spec_to_host(old(artifacts)@, old(awaiting_prepare)@, to_host@, now);
            &&& final(artifacts)@ == step.0
            &&& final(awaiting_prepare)@ == step.1
            &&& action_views(actions@) == step.2
        }),
{
    match to_host {
        ToHost::PrecheckPvf { pvf, result_tx } => {
            handle_precheck_pvf(artifacts, pvf, result_tx, now)
        },
        ToHost::ExecutePvf { pvf, execution_timeout, params, priority, result_tx } => {
            handle_execute_pvf(
                artifacts,
                awaiting_prepare,
                pvf,
                execution_timeout,
                params,
                priority,
                result_tx,
                now,
            )
        },
        ToHost::HeadsUp { active_pvfs } => handle_heads_up(artifacts, active_pvfs, now),
    }
}


} // verus!
