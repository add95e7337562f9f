//! The host's governing properties, proved from the handlers' contracts.
//!
//! Each proof function here states one promise of the host as a whole —
//! de-duplication, fan-out, deferral, cancellation economy, eviction — over
//! the same spec functions the handlers' contracts use, so the statements
//! compose with any verified caller.

use vstd::prelude::*;

use crate::artifact::artifact_id_of;
use crate::artifacts::expired_pred;
use crate::artifacts::has_artifact;
use crate::artifacts::index_of;
use crate::artifacts::is_expired;
use crate::artifacts::kept_entries;
use crate::artifacts::lemma_filter_member_of_source;
use crate::artifacts::lemma_index_of_unique;
use crate::artifacts::lemma_kept_entries_wf;
use crate::artifacts::not_expired_pred;
use crate::artifacts::set_state;
use crate::artifacts::state_of;
use crate::artifacts::store_wf;
use crate::artifacts::swept_ids;
use crate::artifacts::ArtifactStateView;
use crate::artifacts::StoreView;
use crate::error::PrepareErrorView;
use crate::host::flags_from;
use crate::host::pending_of;
use crate::host::precheck_sends;
use crate::host::spec_dispatch_pending;
use crate::host::spec_execute;
use crate::host::spec_heads_up;
use crate::host::spec_heads_up_one;
use crate::host::spec_precheck;
use crate::host::spec_prepare_done;
use crate::host::spec_to_host;
use crate::host::ActionView;
use crate::host::AwaitView;
use crate::host::PendingRequestView;
use crate::host::ToHostView;

verus! {

/// How many of the actions enqueue a preparation of the artifact `id`.
pub open spec fn prepare_enqueues_for(actions: Seq<ActionView>, id: Seq<u8>) -> nat
    decreases actions.len(),
{
    if actions.len() == 0 {
        0
    } else {
        (match actions[0] {
            ActionView::EnqueuePrepare { priority, code } => {
                if artifact_id_of(code) == id {
                    1nat
                } else {
                    0nat
                }
            },
            _ => 0nat,
        }) + prepare_enqueues_for(actions.drop_first(), id)
    }
}

/// How many of the actions enqueue an execution.
pub open spec fn execute_enqueues(actions: Seq<ActionView>) -> nat
    decreases actions.len(),
{
    if actions.len() == 0 {
        0
    } else {
        (match actions[0] {
            ActionView::EnqueueExecute { .. } => 1nat,
            _ => 0nat,
        }) + execute_enqueues(actions.drop_first())
    }
}

/// Whether the command names the artifact `id`.
pub open spec fn cmd_names(cmd: ToHostView, id: Seq<u8>) -> bool {
    match cmd {
        ToHostView::Precheck { code, result_tx } => artifact_id_of(code) == id,
        ToHostView::Execute { code, .. } => artifact_id_of(code) == id,
        ToHostView::HeadsUp { codes } => exists|k: int|
            0 <= k < codes.len() && artifact_id_of(codes[k]) == id,
    }
}

/// Whether some command of the sequence names the artifact `id`.
pub open spec fn some_cmd_names(cmds: Seq<(ToHostView, u64)>, id: Seq<u8>) -> bool {
    exists|k: int| 0 <= k < cmds.len() && cmd_names(cmds[k].0, id)
}

/// The host's run over a sequence of client commands, each stamped with the
/// time it arrives: the store and parking map afterwards, and every action
/// handed out, in order.
pub open spec fn run_commands(s: StoreView, aw: AwaitView, cmds: Seq<(ToHostView, u64)>) -> (
    StoreView,
    AwaitView,
    Seq<ActionView>,
)
    decreases cmds.len(),
{
    if cmds.len() == 0 {
        (s, aw, seq![])
    } else {
        let first = spec_to_host(s, aw, cmds[0].0, cmds[0].1);
        let rest = run_commands(first.0, first.1, cmds.drop_first());
        (rest.0, rest.1, first.2 + rest.2)
    }
}

/// Counting prepare-enqueues distributes over concatenation.
proof fn lemma_count_add(a: Seq<ActionView>, b: Seq<ActionView>, id: Seq<u8>)
    ensures
        prepare_enqueues_for(a + b, id) == prepare_enqueues_for(a, id) + prepare_enqueues_for(
            b,
            id,
        ),
    decreases a.len(),
{
    if a.len() == 0 {
        assert(a + b =~= b);
    } else {
        assert((a + b).drop_first() =~= a.drop_first() + b);
        lemma_count_add(a.drop_first(), b, id);
    }
}

/// Pushing an entry grows the store's domain by exactly that identity.
proof fn lemma_push_has(s: StoreView, e: (Seq<u8>, ArtifactStateView), id: Seq<u8>)
    ensures
        has_artifact(s.push(e), id) == (has_artifact(s, id) || e.0 == id),
{
    if has_artifact(s, id) {
        let i = index_of(s, id);
        assert(s.push(e)[i].0 == id);
    }
    if e.0 == id {
        assert(s.push(e)[s.len() as int].0 == id);
    }
    if has_artifact(s.push(e), id) {
        let i = choose|i: int| 0 <= i < s.push(e).len() && s.push(e)[i].0 == id;
        if i < s.len() {
            assert(s[i].0 == id);
        }
    }
}

/// Updating an entry's state leaves the store's domain unchanged.
proof fn lemma_set_state_has(s: StoreView, id: Seq<u8>, st: ArtifactStateView, id2: Seq<u8>)
    requires
        has_artifact(s, id),
    ensures
        has_artifact(set_state(s, id, st), id2) == has_artifact(s, id2),
{
    let i = index_of(s, id);
    let s2 = set_state(s, id, st);
    assert(s2.len() == s.len());
    if has_artifact(s, id2) {
        let j = index_of(s, id2);
        if j == i {
            assert(s2[i].0 == id && id == id2);
        } else {
            assert(s2[j].0 == id2);
        }
    }
    if has_artifact(s2, id2) {
        let j = choose|j: int| 0 <= j < s2.len() && s2[j].0 == id2;
        if j == i {
            assert(s[i].0 == id && id == id2);
        } else {
            assert(s[j].0 == id2);
        }
    }
}

/// One precheck command: it enqueues a preparation of `id` exactly when the
/// artifact it names is `id` and was unknown, and afterwards `id` is known
/// exactly when it was known or was just named.
proof fn lemma_precheck_count(
    s: StoreView,
    code: Seq<u8>,
    result_tx: crate::channel::PrepareResultSender,
    now: u64,
    id: Seq<u8>,
)
    ensures
        ({
            let step = spec_precheck(s, code, result_tx, now);
            &&& prepare_enqueues_for(step.1, id) == (if !has_artifact(s, artifact_id_of(code))
                && artifact_id_of(code) == id {
                1nat
            } else {
                0nat
            })
            &&& has_artifact(step.0, id) == (has_artifact(s, id) || artifact_id_of(code) == id)
        }),
{
    let aid = artifact_id_of(code);
    let step = spec_precheck(s, code, result_tx, now);
    reveal_with_fuel(prepare_enqueues_for, 3);
    if has_artifact(s, aid) {
        match state_of(s, aid) {
            ArtifactStateView::Prepared { last_time_needed } => {
                lemma_set_state_has(s, aid, ArtifactStateView::Prepared { last_time_needed: now }, id);
            },
            ArtifactStateView::Preparing { waiting } => {
                lemma_set_state_has(
                    s,
                    aid,
                    ArtifactStateView::Preparing { waiting: waiting.push(result_tx) },
                    id,
                );
            },
            ArtifactStateView::Failed(e) => {},
        }
        assert(prepare_enqueues_for(step.1, id) == 0);
    } else {
        lemma_push_has(s, (aid, ArtifactStateView::Preparing { waiting: seq![result_tx] }), id);
        assert(step.1.drop_first() =~= Seq::<ActionView>::empty());
    }
}

/// One execute command, seen the same way.
proof fn lemma_execute_count(
    s: StoreView,
    aw: AwaitView,
    code: Seq<u8>,
    execution_timeout: u64,
    params: Seq<u8>,
    priority: crate::host::Priority,
    result_tx: crate::channel::ResultSender,
    now: u64,
    id: Seq<u8>,
)
    ensures
        ({
            let step = spec_execute(s, aw, code, execution_timeout, params, priority, result_tx, now);
            &&& prepare_enqueues_for(step.2, id) == (if !has_artifact(s, artifact_id_of(code))
                && artifact_id_of(code) == id {
                1nat
            } else {
                0nat
            })
            &&& has_artifact(step.0, id) == (has_artifact(s, id) || artifact_id_of(code) == id)
        }),
{
    let aid = artifact_id_of(code);
    let step = spec_execute(s, aw, code, execution_timeout, params, priority, result_tx, now);
    reveal_with_fuel(prepare_enqueues_for, 3);
    if has_artifact(s, aid) {
        match state_of(s, aid) {
            ArtifactStateView::Prepared { last_time_needed } => {
                lemma_set_state_has(s, aid, ArtifactStateView::Prepared { last_time_needed: now }, id);
            },
            ArtifactStateView::Preparing { waiting } => {},
            ArtifactStateView::Failed(e) => {},
        }
        assert(prepare_enqueues_for(step.2, id) == 0);
    } else {
        lemma_push_has(s, (aid, ArtifactStateView::Preparing { waiting: Seq::empty() }), id);
        assert(step.2.drop_first() =~= Seq::<ActionView>::empty());
    }
}

/// One heads-up command, entry by entry.
proof fn lemma_heads_up_count(s: StoreView, codes: Seq<Seq<u8>>, now: u64, id: Seq<u8>)
    ensures
        ({
            let step = spec_heads_up(s, codes, now);
            &&& prepare_enqueues_for(step.1, id) == (if !has_artifact(s, id) && (exists|k: int|
                0 <= k < codes.len() && artifact_id_of(codes[k]) == id) {
                1nat
            } else {
                0nat
            })
            &&& has_artifact(step.0, id) == (has_artifact(s, id) || (exists|k: int|
                0 <= k < codes.len() && artifact_id_of(codes[k]) == id))
        }),
    decreases codes.len(),
{
    let step = spec_heads_up(s, codes, now);
    reveal_with_fuel(prepare_enqueues_for, 3);
    if codes.len() == 0 {
    } else {
        let aid = artifact_id_of(codes[0]);
        let first = spec_heads_up_one(s, codes[0], now);
        let rest = spec_heads_up(first.0, codes.drop_first(), now);
        lemma_heads_up_count(first.0, codes.drop_first(), now, id);
        lemma_count_add(first.1, rest.1, id);
        if has_artifact(s, aid) {
            match state_of(s, aid) {
                ArtifactStateView::Prepared { last_time_needed } => {
                    lemma_set_state_has(
                        s,
                        aid,
                        ArtifactStateView::Prepared { last_time_needed: now },
                        id,
                    );
                },
                ArtifactStateView::Preparing { waiting } => {},
                ArtifactStateView::Failed(e) => {},
            }
            assert(prepare_enqueues_for(first.1, id) == 0);
        } else {
            lemma_push_has(s, (aid, ArtifactStateView::Preparing { waiting: Seq::empty() }), id);
            assert(first.1.drop_first() =~= Seq::<ActionView>::empty());
        }
        assert((exists|k: int| 0 <= k < codes.len() && artifact_id_of(codes[k]) == id) == (aid
            == id || (exists|k: int|
            0 <= k < codes.drop_first().len() && artifact_id_of(codes.drop_first()[k]) == id)))
            by {
            if exists|k: int| 0 <= k < codes.len() && artifact_id_of(codes[k]) == id {
                let k = choose|k: int| 0 <= k < codes.len() && artifact_id_of(codes[k]) == id;
                if k > 0 {
                    assert(codes.drop_first()[k - 1] == codes[k]);
                }
            }
            if exists|k: int|
                0 <= k < codes.drop_first().len() && artifact_id_of(codes.drop_first()[k]) == id {
                let k = choose|k: int|
                    0 <= k < codes.drop_first().len() && artifact_id_of(codes.drop_first()[k])
                        == id;
                assert(codes[k + 1] == codes.drop_first()[k]);
            }
        }
    }
}

/// One client command of any kind, seen the same way.
proof fn lemma_to_host_count(s: StoreView, aw: AwaitView, cmd: ToHostView, now: u64, id: Seq<u8>)
    ensures
        ({
            let step = spec_to_host(s, aw, cmd, now);
            &&& prepare_enqueues_for(step.2, id) == (if !has_artifact(s, id) && cmd_names(cmd, id) {
                1nat
            } else {
                0nat
            })
            &&& has_artifact(step.0, id) == (has_artifact(s, id) || cmd_names(cmd, id))
        }),
{
    match cmd {
        ToHostView::Precheck { code, result_tx } => {
            lemma_precheck_count(s, code, result_tx, now, id);
        },
        ToHostView::Execute { code, execution_timeout, params, priority, result_tx } => {
            lemma_execute_count(s, aw, code, execution_timeout, params, priority, result_tx, now, id);
        },
        ToHostView::HeadsUp { codes } => {
            lemma_heads_up_count(s, codes, now, id);
        },
    }
}

/// At-most-one-preparation: over any sequence of client commands — any mix
/// of precheck, execute and heads-up, at any times — an artifact unknown at
/// the start has exactly one preparation job enqueued if some command names
/// it, and none otherwise; an artifact already known gets no further job.
pub proof fn lemma_at_most_one_preparation(
    s: StoreView,
    aw: AwaitView,
    cmds: Seq<(ToHostView, u64)>,
    id: Seq<u8>,
)
    ensures
        prepare_enqueues_for(run_commands(s, aw, cmds).2, id) == (if has_artifact(s, id) {
            0nat
        } else if some_cmd_names(cmds, id) {
            1nat
        } else {
            0nat
        }),
        has_artifact(run_commands(s, aw, cmds).0, id) == (has_artifact(s, id) || some_cmd_names(
            cmds,
            id,
        )),
    decreases cmds.len(),
{
    reveal_with_fuel(prepare_enqueues_for, 2);
    if cmds.len() == 0 {
        assert(!some_cmd_names(cmds, id));
    } else {
        let first = spec_to_host(s, aw, cmds[0].0, cmds[0].1);
        let rest_cmds = cmds.drop_first();
        lemma_to_host_count(s, aw, cmds[0].0, cmds[0].1, id);
        lemma_at_most_one_preparation(first.0, first.1, rest_cmds, id);
        lemma_count_add(first.2, run_commands(first.0, first.1, rest_cmds).2, id);
        assert(some_cmd_names(cmds, id) == (cmd_names(cmds[0].0, id) || some_cmd_names(
            rest_cmds,
            id,
        ))) by {
            if some_cmd_names(cmds, id) {
                let k = choose|k: int| 0 <= k < cmds.len() && cmd_names(cmds[k].0, id);
                if k > 0 {
                    assert(rest_cmds[k - 1] == cmds[k]);
                }
            }
            if some_cmd_names(rest_cmds, id) {
                let k = choose|k: int| 0 <= k < rest_cmds.len() && cmd_names(rest_cmds[k].0, id);
                assert(cmds[k + 1] == rest_cmds[k]);
            }
        }
    }
}

/// Fan-out correctness: when a preparation concludes, every precheck caller
/// that was waiting — however many there are — receives one reply, and all
/// the replies carry the identical outcome.
pub proof fn lemma_fan_out(
    s: StoreView,
    aw: AwaitView,
    id: Seq<u8>,
    result: Result<(), PrepareErrorView>,
    canceled: Seq<bool>,
    now: u64,
)
    requires
        has_artifact(s, id),
        state_of(s, id) is Preparing,
    ensures
        ({
            let step = spec_prepare_done(s, aw, id, result, canceled, now);
            let waiting = state_of(s, id)->Preparing_waiting;
            &&& step.2.len() >= waiting.len()
            &&& forall|i: int|
                0 <= i < waiting.len() ==> step.2[i] == (ActionView::SendPrecheckResult {
                    result_tx: waiting[i],
                    result,
                })
        }),
{
    let waiting = state_of(s, id)->Preparing_waiting;
    let sends = precheck_sends(waiting, result);
    assert(forall|i: int| 0 <= i < waiting.len() ==> (sends + spec_dispatch_pending(
        pending_of(aw, id),
        canceled,
        id,
        result,
    ))[i] == sends[i]);
}

/// Execute deferral, arrival half: an execute request that meets an
/// artifact still preparing is parked, and nothing reaches the execute
/// queue from it.
pub proof fn lemma_execute_deferral_parked(
    s: StoreView,
    aw: AwaitView,
    code: Seq<u8>,
    execution_timeout: u64,
    params: Seq<u8>,
    priority: crate::host::Priority,
    result_tx: crate::channel::ResultSender,
    now: u64,
)
    requires
        has_artifact(s, artifact_id_of(code)),
        state_of(s, artifact_id_of(code)) is Preparing,
    ensures
        ({
            let step = spec_execute(s, aw, code, execution_timeout, params, priority, result_tx, now);
            &&& step.2 == Seq::<ActionView>::empty()
            &&& step.1 == crate::host::add_pending(
                aw,
                artifact_id_of(code),
                (PendingRequestView { execution_timeout, params, result_tx }),
            )
            &&& step.0 == s
        }),
{
    assert(spec_execute(s, aw, code, execution_timeout, params, priority, result_tx, now).2
        =~= Seq::<ActionView>::empty());
}

/// No parked request reaches the execute queue when preparation failed.
proof fn lemma_dispatch_err_no_execute(
    pending: Seq<PendingRequestView>,
    canceled: Seq<bool>,
    id: Seq<u8>,
    e: PrepareErrorView,
)
    ensures
        execute_enqueues(spec_dispatch_pending(pending, canceled, id, Err(e))) == 0,
    decreases pending.len(),
{
    reveal_with_fuel(execute_enqueues, 3);
    if pending.len() == 0 {
    } else {
        let rest = spec_dispatch_pending(
            pending.drop_first(),
            flags_from(canceled, 1),
            id,
            Err(e),
        );
        lemma_dispatch_err_no_execute(pending.drop_first(), flags_from(canceled, 1), id, e);
        let whole = spec_dispatch_pending(pending, canceled, id, Err(e));
        if canceled.len() > 0 && canceled[0] {
            assert(whole =~= Seq::<ActionView>::empty() + rest);
            assert(Seq::<ActionView>::empty() + rest =~= rest);
        } else {
            assert(whole.drop_first() =~= rest);
        }
    }
}

/// Counting execute-enqueues distributes over concatenation.
proof fn lemma_execute_count_add(a: Seq<ActionView>, b: Seq<ActionView>)
    ensures
        execute_enqueues(a + b) == execute_enqueues(a) + execute_enqueues(b),
    decreases a.len(),
{
    if a.len() == 0 {
        assert(a + b =~= b);
    } else {
        assert((a + b).drop_first() =~= a.drop_first() + b);
        lemma_execute_count_add(a.drop_first(), b);
    }
}

/// Execute deferral, conclusion half: when a preparation fails, its
/// conclusion forwards nothing to the execute queue — every surviving
/// parked request is answered with an error instead.
pub proof fn lemma_execute_deferral_failed(
    s: StoreView,
    aw: AwaitView,
    id: Seq<u8>,
    e: PrepareErrorView,
    canceled: Seq<bool>,
    now: u64,
)
    ensures
        execute_enqueues(spec_prepare_done(s, aw, id, Err(e), canceled, now).2) == 0,
{
    reveal_with_fuel(execute_enqueues, 2);
    if has_artifact(s, id) && state_of(s, id) is Preparing {
        let waiting = state_of(s, id)->Preparing_waiting;
        let sends = precheck_sends(waiting, Err(e));
        let dispatches = spec_dispatch_pending(pending_of(aw, id), canceled, id, Err(e));
        lemma_dispatch_err_no_execute(pending_of(aw, id), canceled, id, e);
        lemma_execute_count_add(sends, dispatches);
        lemma_sends_no_execute(waiting, Err(e));
    }
}

/// Precheck replies are never execute-queue entries.
proof fn lemma_sends_no_execute(
    waiting: Seq<crate::channel::PrepareResultSender>,
    result: Result<(), PrepareErrorView>,
)
    ensures
        execute_enqueues(precheck_sends(waiting, result)) == 0,
    decreases waiting.len(),
{
    reveal_with_fuel(execute_enqueues, 2);
    let sends = precheck_sends(waiting, result);
    if waiting.len() == 0 {
    } else {
        lemma_sends_no_execute(waiting.drop_first(), result);
        assert(sends.drop_first() =~= precheck_sends(waiting.drop_first(), result));
    }
}

/// How many parked requests still have an interested caller.
pub open spec fn live_requests(pending: Seq<PendingRequestView>, canceled: Seq<bool>) -> nat
    decreases pending.len(),
{
    if pending.len() == 0 {
        0
    } else {
        (if canceled.len() > 0 && canceled[0] {
            0nat
        } else {
            1nat
        }) + live_requests(pending.drop_first(), flags_from(canceled, 1))
    }
}

/// Whether every parked request's caller has dropped its result channel:
/// request by request, its flag is there and set.
pub open spec fn all_canceled(pending: Seq<PendingRequestView>, canceled: Seq<bool>) -> bool
    decreases pending.len(),
{
    pending.len() == 0 || (canceled.len() > 0 && canceled[0] && all_canceled(
        pending.drop_first(),
        flags_from(canceled, 1),
    ))
}

/// Cancellation economy: a preparation's conclusion submits exactly one
/// execute-queue job per parked request whose caller still listens — none
/// for an abandoned request, and none at all when preparation failed.
pub proof fn lemma_cancellation_economy(
    pending: Seq<PendingRequestView>,
    canceled: Seq<bool>,
    id: Seq<u8>,
    result: Result<(), PrepareErrorView>,
)
    ensures
        execute_enqueues(spec_dispatch_pending(pending, canceled, id, result)) == (match result {
            Ok(()) => live_requests(pending, canceled),
            Err(e) => 0nat,
        }),
        all_canceled(pending, canceled) ==> spec_dispatch_pending(pending, canceled, id, result)
            == Seq::<ActionView>::empty(),
    decreases pending.len(),
{
    reveal_with_fuel(execute_enqueues, 3);
    if pending.len() == 0 {
    } else {
        lemma_cancellation_economy(pending.drop_first(), flags_from(canceled, 1), id, result);
        let whole = spec_dispatch_pending(pending, canceled, id, result);
        let rest = spec_dispatch_pending(pending.drop_first(), flags_from(canceled, 1), id, result);
        if canceled.len() > 0 && canceled[0] {
            assert(whole =~= Seq::<ActionView>::empty() + rest);
            assert(Seq::<ActionView>::empty() + rest =~= rest);
        } else {
            assert(whole.drop_first() =~= rest);
        }
        if all_canceled(pending, canceled) {
            lemma_all_canceled_dispatches_nothing(pending, canceled, id, result);
        }
    }
}

/// When every parked caller is gone, the conclusion dispatches nothing.
proof fn lemma_all_canceled_dispatches_nothing(
    pending: Seq<PendingRequestView>,
    canceled: Seq<bool>,
    id: Seq<u8>,
    result: Result<(), PrepareErrorView>,
)
    requires
        all_canceled(pending, canceled),
    ensures
        spec_dispatch_pending(pending, canceled, id, result) == Seq::<ActionView>::empty(),
    decreases pending.len(),
{
    let whole = spec_dispatch_pending(pending, canceled, id, result);
    if pending.len() == 0 {
        assert(whole =~= Seq::<ActionView>::empty());
    } else {
        assert(0 < canceled.len() && canceled[0]);
        lemma_all_canceled_dispatches_nothing(
            pending.drop_first(),
            flags_from(canceled, 1),
            id,
            result,
        );
        let rest = spec_dispatch_pending(pending.drop_first(), flags_from(canceled, 1), id, result);
        assert(whole =~= Seq::<ActionView>::empty() + rest);
        assert(whole =~= Seq::<ActionView>::empty());
    }
}

/// TTL pruning: at a cleanup pulse, a prepared artifact last needed more
/// than the TTL ago is handed to the sweeper and leaves the store; one
/// within its TTL is neither swept nor removed, and keeps its timestamp.
pub proof fn lemma_ttl_pruning(s: StoreView, artifact_ttl: u64, now: u64, id: Seq<u8>)
    requires
        store_wf(s),
        has_artifact(s, id),
        state_of(s, id) is Prepared,
    ensures
        ({
            let last = state_of(s, id)->Prepared_last_time_needed;
            &&& (last + artifact_ttl < now) ==> swept_ids(s, artifact_ttl, now).contains(id)
                && !has_artifact(kept_entries(s, artifact_ttl, now), id)
            &&& (last + artifact_ttl >= now) ==> !swept_ids(s, artifact_ttl, now).contains(id)
                && has_artifact(kept_entries(s, artifact_ttl, now), id) && state_of(
                kept_entries(s, artifact_ttl, now),
                id,
            ) == state_of(s, id)
        }),
{
    let last = state_of(s, id)->Prepared_last_time_needed;
    let i = index_of(s, id);
    let entry = s[i];
    let kept = kept_entries(s, artifact_ttl, now);
    let expired_entries = s.filter(expired_pred(artifact_ttl, now));
    if last + artifact_ttl < now {
        assert(is_expired(entry.1, artifact_ttl, now));
        s.lemma_filter_contains(expired_pred(artifact_ttl, now), i);
        let k = choose|k: int|
            0 <= k < expired_entries.len() && expired_entries[k] == entry;
        assert(swept_ids(s, artifact_ttl, now)[k] == id);
        assert(swept_ids(s, artifact_ttl, now).contains(id));
        if has_artifact(kept, id) {
            let j = choose|j: int| 0 <= j < kept.len() && kept[j].0 == id;
            lemma_filter_member_of_source(s, not_expired_pred(artifact_ttl, now), j);
            let m = choose|m: int| 0 <= m < s.len() && s[m] == kept[j];
            lemma_index_of_unique(s, id, m);
            s.lemma_filter_pred(not_expired_pred(artifact_ttl, now), j);
            assert(!is_expired(kept[j].1, artifact_ttl, now));
            assert(kept[j] == entry);
            assert(false);
        }
    } else {
        assert(!is_expired(entry.1, artifact_ttl, now));
        s.lemma_filter_contains(not_expired_pred(artifact_ttl, now), i);
        let k = choose|k: int| 0 <= k < kept.len() && kept[k] == entry;
        assert(has_artifact(kept, id));
        lemma_kept_entries_wf(s, artifact_ttl, now);
        crate::artifacts::lemma_index_of_unique(kept, id, k);
        assert(state_of(kept, id) == entry.1);
        if swept_ids(s, artifact_ttl, now).contains(id) {
            let j = choose|j: int|
                0 <= j < swept_ids(s, artifact_ttl, now).len() && swept_ids(
                    s,
                    artifact_ttl,
                    now,
                )[j] == id;
            assert(expired_entries[j].0 == id);
            lemma_filter_member_of_source(s, expired_pred(artifact_ttl, now), j);
            let m = choose|m: int| 0 <= m < s.len() && s[m] == expired_entries[j];
            lemma_index_of_unique(s, id, m);
            s.lemma_filter_pred(expired_pred(artifact_ttl, now), j);
            assert(is_expired(entry.1, artifact_ttl, now));
            assert(false);
        }
    }
}

/// TTL pruning, refresh half: a heads-up for a prepared artifact resets its
/// eviction clock, so a cleanup pulse that fires within the TTL of that
/// refresh neither sweeps nor removes it.
pub proof fn lemma_refresh_prevents_sweep(
    s: StoreView,
    code: Seq<u8>,
    refresh_time: u64,
    artifact_ttl: u64,
    pulse_time: u64,
)
    requires
        store_wf(s),
        has_artifact(s, artifact_id_of(code)),
        state_of(s, artifact_id_of(code)) is Prepared,
        pulse_time <= refresh_time + artifact_ttl,
    ensures
        ({
            let id = artifact_id_of(code);
            let refreshed = spec_heads_up(s, seq![code], refresh_time).0;
            &&& !swept_ids(refreshed, artifact_ttl, pulse_time).contains(id)
            &&& has_artifact(kept_entries(refreshed, artifact_ttl, pulse_time), id)
        }),
{
    let id = artifact_id_of(code);
    reveal_with_fuel(spec_heads_up, 3);
    assert(seq![code].drop_first() =~= Seq::<Seq<u8>>::empty());
    let refreshed = spec_heads_up(s, seq![code], refresh_time).0;
    assert(refreshed == set_state(
        s,
        id,
        ArtifactStateView::Prepared { last_time_needed: refresh_time },
    ));
    crate::artifacts::lemma_set_state_wf(
        s,
        id,
        ArtifactStateView::Prepared { last_time_needed: refresh_time },
    );
    lemma_ttl_pruning(refreshed, artifact_ttl, pulse_time, id);
}

/// Idempotent heads-up: for an already-prepared artifact, a heads-up — and
/// any repetition of it — enqueues no preparation job, delivers nothing,
/// and changes nothing but the artifact's own eviction timestamp, which is
/// set to the time of the latest call.
pub proof fn lemma_idempotent_heads_up(s: StoreView, code: Seq<u8>, t1: u64, t2: u64)
    requires
        store_wf(s),
        has_artifact(s, artifact_id_of(code)),
        state_of(s, artifact_id_of(code)) is Prepared,
    ensures
        ({
            let id = artifact_id_of(code);
            let once = spec_heads_up(s, seq![code], t1);
            let twice = spec_heads_up(once.0, seq![code], t2);
            &&& once.1 == Seq::<ActionView>::empty()
            &&& twice.1 == Seq::<ActionView>::empty()
            &&& once.0 == set_state(s, id, ArtifactStateView::Prepared { last_time_needed: t1 })
            &&& twice.0 == set_state(s, id, ArtifactStateView::Prepared { last_time_needed: t2 })
            &&& twice.0.len() == s.len()
            &&& forall|j: int|
                0 <= j < s.len() && j != index_of(s, id) ==> twice.0[j] == s[j]
        }),
{
    let id = artifact_id_of(code);
    reveal_with_fuel(spec_heads_up, 3);
    assert(seq![code].drop_first() =~= Seq::<Seq<u8>>::empty());
    let once = spec_heads_up(s, seq![code], t1);
    assert(once.1 =~= Seq::<ActionView>::empty());
    crate::artifacts::lemma_set_state_wf(
        s,
        id,
        ArtifactStateView::Prepared { last_time_needed: t1 },
    );
    let twice = spec_heads_up(once.0, seq![code], t2);
    assert(twice.1 =~= Seq::<ActionView>::empty());
    crate::artifacts::lemma_set_state_wf(
        once.0,
        id,
        ArtifactStateView::Prepared { last_time_needed: t2 },
    );
    assert(index_of(once.0, id) == index_of(s, id));
    assert(twice.0 =~= set_state(s, id, ArtifactStateView::Prepared { last_time_needed: t2 }));
}


} // verus!
