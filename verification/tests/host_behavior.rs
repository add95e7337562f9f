//! Behaviour of the validation host's event-loop logic, driven one event at
//! a time against the pure handlers.

use futures::channel::oneshot;
use pvf_host::artifact::ArtifactId;
use pvf_host::artifact::Pvf;
use pvf_host::artifacts::Artifacts;
use pvf_host::error::InvalidCandidate;
use pvf_host::error::PrepareError;
use pvf_host::error::PrepareResult;
use pvf_host::error::ValidationError;
use pvf_host::host::handle_cleanup_pulse;
use pvf_host::host::handle_execute_pvf;
use pvf_host::host::handle_heads_up;
use pvf_host::host::handle_precheck_pvf;
use pvf_host::host::handle_prepare_done;
use pvf_host::host::Action;
use pvf_host::host::AwaitingPrepare;
use pvf_host::host::Priority;
use pvf_host::host::ValidationResult;

const TEST_EXECUTION_TIMEOUT: u64 = 3000;

fn artifact_id(discriminator: u32) -> ArtifactId {
    Pvf::from_discriminator(discriminator).as_artifact_id()
}

fn artifact_path(discriminator: u32) -> String {
    artifact_id(discriminator).file_name()
}

fn count_prepare_enqueues(actions: &[Action]) -> usize {
    actions
        .iter()
        .filter(|a| matches!(a, Action::EnqueuePrepare { .. }))
        .count()
}

fn count_execute_enqueues(actions: &[Action]) -> usize {
    actions
        .iter()
        .filter(|a| matches!(a, Action::EnqueueExecute { .. }))
        .count()
}

/// Performs the result deliveries among `actions` as the surrounding
/// runtime would, and returns the execute-queue submissions.
fn perform(actions: Vec<Action>) -> Vec<Action> {
    let mut executes = Vec::new();
    for action in actions {
        match action {
            Action::SendPrecheckResult { result_tx, result } => {
                let _ = result_tx.send(result);
            }
            Action::SendExecuteError { result_tx, error } => {
                let _ = result_tx.send(Err(error));
            }
            other => executes.push(other),
        }
    }
    executes
}

#[test]
fn execute_pvf_requests() {
    let mut artifacts = Artifacts::empty();
    let mut awaiting = AwaitingPrepare::empty();

    let (result_tx, mut result_rx_pvf_1_1) = oneshot::channel();
    let a1 = handle_execute_pvf(
        &mut artifacts,
        &mut awaiting,
        Pvf::from_discriminator(1),
        TEST_EXECUTION_TIMEOUT,
        b"pvf1".to_vec(),
        Priority::Normal,
        result_tx,
        0,
    );

    let (result_tx, mut result_rx_pvf_1_2) = oneshot::channel();
    let a2 = handle_execute_pvf(
        &mut artifacts,
        &mut awaiting,
        Pvf::from_discriminator(1),
        TEST_EXECUTION_TIMEOUT,
        b"pvf1".to_vec(),
        Priority::Critical,
        result_tx,
        0,
    );

    let (result_tx, mut result_rx_pvf_2) = oneshot::channel();
    let a3 = handle_execute_pvf(
        &mut artifacts,
        &mut awaiting,
        Pvf::from_discriminator(2),
        TEST_EXECUTION_TIMEOUT,
        b"pvf2".to_vec(),
        Priority::Normal,
        result_tx,
        0,
    );

    // The prepare queue receives one job per distinct artifact: A once, B once.
    assert_eq!(count_prepare_enqueues(&a1), 1);
    assert_eq!(count_prepare_enqueues(&a2), 0);
    assert_eq!(count_prepare_enqueues(&a3), 1);

    // A's preparation succeeds: both of A's requests reach the execute queue.
    let done1 = handle_prepare_done(
        &mut artifacts,
        &mut awaiting,
        &artifact_id(1),
        PrepareResult::Ok(()),
        0,
    );
    let mut executes_1 = perform(done1);
    assert_eq!(executes_1.len(), 2);

    // B's preparation succeeds: exactly B's own request follows.
    let done2 = handle_prepare_done(
        &mut artifacts,
        &mut awaiting,
        &artifact_id(2),
        PrepareResult::Ok(()),
        0,
    );
    let mut executes_2 = perform(done2);
    assert_eq!(executes_2.len(), 1);

    let report = |action: Action| match action {
        Action::EnqueueExecute { result_tx, .. } => {
            let _ = result_tx.send(Err::<ValidationResult, _>(ValidationError::InvalidCandidate(
                InvalidCandidate::AmbiguousWorkerDeath,
            )));
        }
        _ => panic!("expected an execute-queue submission"),
    };
    report(executes_1.remove(0));
    report(executes_1.remove(0));
    report(executes_2.remove(0));

    for rx in [
        &mut result_rx_pvf_1_1,
        &mut result_rx_pvf_1_2,
        &mut result_rx_pvf_2,
    ] {
        match rx.try_recv().unwrap().unwrap() {
            Err(ValidationError::InvalidCandidate(InvalidCandidate::AmbiguousWorkerDeath)) => {}
            _ => panic!("expected the worker-death error to be delivered"),
        }
    }
}

#[test]
fn precheck_pvf() {
    let mut artifacts = Artifacts::empty();
    let mut awaiting = AwaitingPrepare::empty();

    // First, a simple precheck request.
    let (result_tx, mut result_rx) = oneshot::channel();
    let actions = handle_precheck_pvf(&mut artifacts, Pvf::from_discriminator(1), result_tx, 0);
    assert_eq!(count_prepare_enqueues(&actions), 1);

    let done = handle_prepare_done(
        &mut artifacts,
        &mut awaiting,
        &artifact_id(1),
        PrepareResult::Ok(()),
        0,
    );
    // No pending execute requests.
    assert_eq!(count_execute_enqueues(&done), 0);
    let leftover = perform(done);
    assert!(leftover.is_empty());
    // Received the precheck result.
    assert!(matches!(result_rx.try_recv().unwrap().unwrap(), Ok(())));

    // Several requests for the same PVF share one preparation.
    let mut precheck_receivers = Vec::new();
    let mut enqueued = 0;
    for _ in 0..3 {
        let (result_tx, result_rx) = oneshot::channel();
        let actions =
            handle_precheck_pvf(&mut artifacts, Pvf::from_discriminator(2), result_tx, 0);
        enqueued += count_prepare_enqueues(&actions);
        precheck_receivers.push(result_rx);
    }
    assert_eq!(enqueued, 1);

    let done = handle_prepare_done(
        &mut artifacts,
        &mut awaiting,
        &artifact_id(2),
        PrepareResult::Err(PrepareError::TimedOut),
        0,
    );
    assert_eq!(count_execute_enqueues(&done), 0);
    let leftover = perform(done);
    assert!(leftover.is_empty());
    for mut result_rx in precheck_receivers {
        match result_rx.try_recv().unwrap().unwrap() {
            Err(PrepareError::TimedOut) => {}
            _ => panic!("every waiter must see the cached time-out"),
        }
    }
}

#[test]
fn test_prepare_done() {
    let mut artifacts = Artifacts::empty();
    let mut awaiting = AwaitingPrepare::empty();

    // A PVF is sent for execution and prechecked while it prepares.
    let (result_tx, mut result_rx_execute) = oneshot::channel();
    let actions = handle_execute_pvf(
        &mut artifacts,
        &mut awaiting,
        Pvf::from_discriminator(1),
        TEST_EXECUTION_TIMEOUT,
        b"pvf2".to_vec(),
        Priority::Critical,
        result_tx,
        0,
    );
    assert_eq!(count_prepare_enqueues(&actions), 1);

    let (result_tx, mut result_rx) = oneshot::channel();
    let actions = handle_precheck_pvf(&mut artifacts, Pvf::from_discriminator(1), result_tx, 0);
    assert_eq!(count_prepare_enqueues(&actions), 0);

    // The preparation fails: the execute queue stays empty and both callers
    // hear of it.
    let done = handle_prepare_done(
        &mut artifacts,
        &mut awaiting,
        &artifact_id(1),
        PrepareResult::Err(PrepareError::TimedOut),
        0,
    );
    assert_eq!(count_execute_enqueues(&done), 0);
    let leftover = perform(done);
    assert!(leftover.is_empty());
    assert!(matches!(
        result_rx.try_recv().unwrap().unwrap(),
        Err(PrepareError::TimedOut)
    ));
    assert!(matches!(
        result_rx_execute.try_recv().unwrap().unwrap(),
        Err(ValidationError::InternalError(_))
    ));

    // Reversed: several prechecks first, then an execution request.
    let mut precheck_receivers = Vec::new();
    let mut enqueued = 0;
    for _ in 0..3 {
        let (result_tx, result_rx) = oneshot::channel();
        let actions =
            handle_precheck_pvf(&mut artifacts, Pvf::from_discriminator(2), result_tx, 0);
        enqueued += count_prepare_enqueues(&actions);
        precheck_receivers.push(result_rx);
    }
    let (result_tx, _result_rx_execute) = oneshot::channel();
    let actions = handle_execute_pvf(
        &mut artifacts,
        &mut awaiting,
        Pvf::from_discriminator(2),
        TEST_EXECUTION_TIMEOUT,
        b"pvf2".to_vec(),
        Priority::Critical,
        result_tx,
        0,
    );
    enqueued += count_prepare_enqueues(&actions);
    assert_eq!(enqueued, 1);

    let done = handle_prepare_done(
        &mut artifacts,
        &mut awaiting,
        &artifact_id(2),
        PrepareResult::Ok(()),
        0,
    );
    // The execute queue receives the parked request; prechecking concludes.
    let executes = perform(done);
    assert_eq!(executes.len(), 1);
    assert!(matches!(executes[0], Action::EnqueueExecute { .. }));
    for mut result_rx in precheck_receivers {
        assert!(matches!(result_rx.try_recv().unwrap().unwrap(), Ok(())));
    }
}

#[test]
fn cancellation() {
    let mut artifacts = Artifacts::empty();
    let mut awaiting = AwaitingPrepare::empty();

    let (result_tx, result_rx) = oneshot::channel();
    let actions = handle_execute_pvf(
        &mut artifacts,
        &mut awaiting,
        Pvf::from_discriminator(1),
        TEST_EXECUTION_TIMEOUT,
        b"pvf1".to_vec(),
        Priority::Normal,
        result_tx,
        0,
    );
    assert_eq!(count_prepare_enqueues(&actions), 1);

    // The caller loses interest before preparation concludes.
    drop(result_rx);

    let done = handle_prepare_done(
        &mut artifacts,
        &mut awaiting,
        &artifact_id(1),
        PrepareResult::Ok(()),
        0,
    );
    // The abandoned request never reaches the execute queue.
    assert_eq!(count_execute_enqueues(&done), 0);
    let leftover = perform(done);
    assert!(leftover.is_empty());
}

#[test]
fn pruning() {
    // Two artifacts prepared 1000 ms ago, a TTL of 500 ms and a pulse every
    // 100 ms: a heads-up for the first artifact refreshes it, so the pulse
    // sweeps exactly the second one's file.
    let mock_then: u64 = 0;
    let now: u64 = 1000;
    let ttl: u64 = 500;
    let _pulse_interval: u64 = 100;

    let mut artifacts = Artifacts::empty();
    artifacts.insert_prepared(artifact_id(1), mock_then);
    artifacts.insert_prepared(artifact_id(2), mock_then);

    let actions = handle_heads_up(&mut artifacts, vec![Pvf::from_discriminator(1)], now);
    assert_eq!(count_prepare_enqueues(&actions), 0);

    let sweeps = handle_cleanup_pulse(&mut artifacts, ttl, now);
    assert_eq!(sweeps.len(), 1);
    match &sweeps[0] {
        Action::SweepFile { file_name } => assert_eq!(file_name, &artifact_path(2)),
        _ => panic!("the pulse must only sweep files"),
    }

    // Extending the TTL again leaves the next pulse with nothing to sweep.
    let actions = handle_heads_up(&mut artifacts, vec![Pvf::from_discriminator(1)], now + 100);
    assert_eq!(count_prepare_enqueues(&actions), 0);
    let sweeps = handle_cleanup_pulse(&mut artifacts, ttl, now + 100);
    assert!(sweeps.is_empty());
}

#[test]
fn heads_up_deduplicates_within_one_call() {
    let mut artifacts = Artifacts::empty();
    let actions = handle_heads_up(
        &mut artifacts,
        vec![
            Pvf::from_discriminator(7),
            Pvf::from_discriminator(7),
            Pvf::from_discriminator(8),
        ],
        0,
    );
    assert_eq!(count_prepare_enqueues(&actions), 2);
}

#[test]
fn failed_preparation_is_cached_and_replayed() {
    let mut artifacts = Artifacts::empty();
    let mut awaiting = AwaitingPrepare::empty();

    let (result_tx, _result_rx) = oneshot::channel();
    let actions = handle_precheck_pvf(&mut artifacts, Pvf::from_discriminator(3), result_tx, 0);
    assert_eq!(count_prepare_enqueues(&actions), 1);
    let done = handle_prepare_done(
        &mut artifacts,
        &mut awaiting,
        &artifact_id(3),
        PrepareResult::Err(PrepareError::Preparation(String::from("compile failed"))),
        0,
    );
    perform(done);

    // A later precheck is answered from the cache, with no new job.
    let (result_tx, mut result_rx) = oneshot::channel();
    let actions = handle_precheck_pvf(&mut artifacts, Pvf::from_discriminator(3), result_tx, 5);
    assert_eq!(count_prepare_enqueues(&actions), 0);
    perform(actions);
    match result_rx.try_recv().unwrap().unwrap() {
        Err(PrepareError::Preparation(msg)) => assert_eq!(msg, "compile failed"),
        _ => panic!("the cached error must be replayed"),
    }

    // A later execute request is refused with a translated error and never
    // reaches the execute queue.
    let (result_tx, mut result_rx) = oneshot::channel();
    let actions = handle_execute_pvf(
        &mut artifacts,
        &mut awaiting,
        Pvf::from_discriminator(3),
        TEST_EXECUTION_TIMEOUT,
        b"params".to_vec(),
        Priority::Normal,
        result_tx,
        6,
    );
    assert_eq!(count_prepare_enqueues(&actions), 0);
    assert_eq!(count_execute_enqueues(&actions), 0);
    perform(actions);
    match result_rx.try_recv().unwrap().unwrap() {
        Err(ValidationError::InternalError(msg)) => assert_eq!(msg, "compile failed"),
        _ => panic!("a cached failure must translate to an internal error"),
    }
}

#[test]
fn prepared_artifact_executes_at_once() {
    let mut artifacts = Artifacts::empty();
    let mut awaiting = AwaitingPrepare::empty();
    artifacts.insert_prepared(artifact_id(4), 0);

    let (result_tx, _result_rx) = oneshot::channel();
    let actions = handle_execute_pvf(
        &mut artifacts,
        &mut awaiting,
        Pvf::from_discriminator(4),
        TEST_EXECUTION_TIMEOUT,
        b"input".to_vec(),
        Priority::Normal,
        result_tx,
        42,
    );
    assert_eq!(actions.len(), 1);
    match &actions[0] {
        Action::EnqueueExecute {
            artifact_id: id,
            execution_timeout,
            params,
            ..
        } => {
            assert!(id.equals(&artifact_id(4)));
            assert_eq!(*execution_timeout, TEST_EXECUTION_TIMEOUT);
            assert_eq!(params, &b"input".to_vec());
        }
        _ => panic!("a prepared artifact goes straight to the execute queue"),
    }
}
