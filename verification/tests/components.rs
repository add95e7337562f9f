//! The host's supporting pieces: artifact identities and file names, frame
//! encoding, temporary file names, error handling and the small utilities.

use pvf_host::artifact::ArtifactId;
use pvf_host::artifact::Pvf;
use pvf_host::artifacts::Artifacts;
use pvf_host::error::log_error;
use pvf_host::error::FatalError;
use pvf_host::error::HostError;
use pvf_host::error::PrepareError;
use pvf_host::error::PrepareResult;
use pvf_host::error::ValidationError;
use pvf_host::framing::decode_frame_header;
use pvf_host::host::Priority;
use pvf_host::framing::encode_frame;
use pvf_host::framing::encode_frame_header;
use pvf_host::metrics::Counter;
use pvf_host::metrics::CounterVec;
use pvf_host::variant::ChainIdentity;
use pvf_host::variant::IdentifyVariant;
use pvf_host::vote::VoteCause;
use pvf_host::vote::VoteOutcome;
use futures::channel::oneshot;
use pvf_host::queue::ExecuteQueue;
use pvf_host::queue::ExecuteQueueJob;
use pvf_host::queue::PrepareQueue;
use pvf_host::worker::tmpfile_name;
use pvf_host::worker::SpawnErr;

#[test]
fn artifact_file_name_is_the_blake2_digest() {
    // BLAKE2b with a 32-byte output maps the empty input to a fixed,
    // published digest; the file name spells it in hex behind the prefix.
    let pvf = Pvf::from_code(Vec::new());
    let id = pvf.as_artifact_id();
    assert_eq!(
        id.file_name(),
        "wasmtime_0x0e5751c026e543b2e8ab2eb06099daa1d1e5df47778f7787faab45cdf12fe3a8"
    );
}

#[test]
fn artifact_ids_are_deterministic_and_distinct() {
    let a1 = Pvf::from_discriminator(1).as_artifact_id();
    let a1_again = Pvf::from_discriminator(1).as_artifact_id();
    let a2 = Pvf::from_discriminator(2).as_artifact_id();
    assert!(a1.equals(&a1_again));
    assert!(!a1.equals(&a2));
    assert_eq!(a1.file_name(), a1_again.file_name());
}

#[test]
fn frame_header_round_trip() {
    let header = encode_frame_header(0x0102030405060708);
    assert_eq!(header, vec![0x08, 0x07, 0x06, 0x05, 0x04, 0x03, 0x02, 0x01]);
    assert_eq!(decode_frame_header(&header), 0x0102030405060708);

    let zero = encode_frame_header(0);
    assert_eq!(decode_frame_header(&zero), 0);

    let max = encode_frame_header(u64::MAX);
    assert_eq!(decode_frame_header(&max), u64::MAX);
}

#[test]
fn frame_carries_length_then_payload() {
    let payload = b"hello worker".to_vec();
    let frame = encode_frame(&payload);
    assert_eq!(frame.len(), 8 + payload.len());
    assert_eq!(decode_frame_header(&frame[..8]), payload.len() as u64);
    assert_eq!(&frame[8..], &payload[..]);
}

#[test]
fn tmpfile_names_are_shaped_and_fresh() {
    let prefix = "pvf-host-prepare";
    let name = tmpfile_name(prefix);
    assert_eq!(name.len(), prefix.len() + 10);
    assert!(name.starts_with(prefix));
    assert!(name[prefix.len()..]
        .chars()
        .all(|c| c.is_ascii_alphanumeric()));
    // Two draws collide only with negligible probability.
    let other = tmpfile_name(prefix);
    assert_ne!(name, other);
}

#[test]
fn spawn_err_describes_each_failure() {
    assert_eq!(
        SpawnErr::TmpFile.describe(),
        "cannot obtain a temporary file location"
    );
    assert_eq!(SpawnErr::Bind.describe(), "cannot bind the socket");
    assert_eq!(SpawnErr::Accept.describe(), "cannot accept a connection");
    assert_eq!(SpawnErr::ProcessSpawn.describe(), "cannot spawn the process");
    assert_eq!(
        SpawnErr::AcceptTimeout.describe(),
        "the spawn deadline elapsed"
    );
}

#[test]
fn fatal_errors_stop_the_loop_and_job_errors_do_not() {
    assert!(log_error(Ok(()), "pvf").is_ok());
    let r = log_error(
        Err(HostError::Fatal(FatalError::ExecuteQueueClosed)),
        "pvf",
    );
    assert_eq!(r, Err(FatalError::ExecuteQueueClosed));
}

#[test]
fn prepare_errors_translate_to_internal_errors() {
    let cases = vec![
        PrepareError::Prevalidation(String::from("bad header")),
        PrepareError::Preparation(String::from("no compile")),
        PrepareError::Panic(String::from("worker panicked")),
        PrepareError::TimedOut,
    ];
    for e in cases {
        match ValidationError::from_prepare_error(&e) {
            ValidationError::InternalError(_) => {}
            _ => panic!("a preparation failure is never a finding about the candidate"),
        }
    }
}

#[test]
fn precheck_outcome_decides_the_vote() {
    let ok: PrepareResult = Ok(());
    let err: PrepareResult = Err(PrepareError::TimedOut);
    assert_eq!(VoteOutcome::from_precheck(&ok), VoteOutcome::Accept);
    assert_eq!(VoteOutcome::from_precheck(&err), VoteOutcome::Reject);
    assert_ne!(VoteCause::Onboarding, VoteCause::Upgrade);
}

#[test]
fn chain_identities_are_recognised() {
    assert!(ChainIdentity::new(String::from("selendra")).is_selendra());
    assert!(ChainIdentity::new(String::from("sel-staging")).is_selendra());
    assert!(!ChainIdentity::new(String::from("westend")).is_selendra());
    assert!(ChainIdentity::new(String::from("selendra-dev")).is_dev());
    assert!(!ChainIdentity::new(String::from("selendra")).is_dev());
    assert!(ChainIdentity::new(String::from("dev")).is_dev());
}

#[test]
fn noop_counters_accept_every_call() {
    let counter = Counter;
    counter.inc();
    counter.inc_by(10);
    let family = CounterVec;
    family.with_label_values(&["prepare", "execute"]).inc();
    family.with_label_values(&["prepare"]).inc_by(3);
}

#[test]
fn prepare_queue_prefers_critical_within_caps() {
    let mut queue = PrepareQueue::new(1, 2);

    queue.enqueue(Priority::Normal, Pvf::from_discriminator(1));
    let first = queue.next_job().expect("a slot is free");
    assert!(matches!(first.0, Priority::Normal));

    queue.enqueue(Priority::Normal, Pvf::from_discriminator(2));
    queue.enqueue(Priority::Critical, Pvf::from_discriminator(3));
    // Only a critical job may pass the soft cap, and the earliest critical
    // one goes first.
    let second = queue.next_job().expect("critical fits under the hard cap");
    assert!(matches!(second.0, Priority::Critical));
    assert!(second
        .1
        .as_artifact_id()
        .equals(&Pvf::from_discriminator(3).as_artifact_id()));
    // The hard cap is reached; nothing more is dispatched.
    assert!(queue.next_job().is_none());

    queue.conclude();
    // One slot free again, but the ordinary job still waits for the soft cap.
    assert!(queue.next_job().is_none());
    queue.conclude();
    let third = queue.next_job().expect("the soft cap has room again");
    assert!(matches!(third.0, Priority::Normal));
    assert!(third
        .1
        .as_artifact_id()
        .equals(&Pvf::from_discriminator(2).as_artifact_id()));
}

#[test]
fn execute_queue_is_first_come_first_served() {
    let mut queue = ExecuteQueue::new(1);
    let (tx1, _rx1) = oneshot::channel();
    let (tx2, _rx2) = oneshot::channel();
    queue.enqueue(ExecuteQueueJob {
        artifact_id: Pvf::from_discriminator(1).as_artifact_id(),
        execution_timeout: 3000,
        params: b"first".to_vec(),
        result_tx: tx1,
    });
    queue.enqueue(ExecuteQueueJob {
        artifact_id: Pvf::from_discriminator(2).as_artifact_id(),
        execution_timeout: 3000,
        params: b"second".to_vec(),
        result_tx: tx2,
    });

    let job = queue.next_job().expect("one worker slot is free");
    assert_eq!(job.params, b"first".to_vec());
    // The single slot is taken until the job concludes.
    assert!(queue.next_job().is_none());
    queue.conclude();
    let job = queue.next_job().expect("the slot is free again");
    assert_eq!(job.params, b"second".to_vec());
}

#[test]
fn file_names_parse_back_to_their_identity() {
    let id = Pvf::from_discriminator(9).as_artifact_id();
    let name = id.file_name();
    let parsed = ArtifactId::from_file_name(&name)
        .expect("a name the host wrote must parse");
    assert!(parsed.equals(&id));
    assert!(ArtifactId::from_file_name("wasmtime_0x0e57").is_some());
    // Foreign files are not ours: wrong prefix, odd digit count, uppercase.
    assert!(ArtifactId::from_file_name("prepare.lock").is_none());
    assert!(ArtifactId::from_file_name("wasmtime_0x0e5").is_none());
    assert!(ArtifactId::from_file_name("wasmtime_0x0E57").is_none());
}

#[test]
fn startup_scan_rebuilds_the_store_once_per_artifact() {
    let id1 = Pvf::from_discriminator(1).as_artifact_id();
    let id2 = Pvf::from_discriminator(2).as_artifact_id();
    let names = vec![
        id1.file_name(),
        String::from("not-an-artifact"),
        id1.file_name(),
        id2.file_name(),
    ];
    let artifacts = Artifacts::from_file_names(names, 7);
    assert!(artifacts.contains(&id1));
    assert!(artifacts.contains(&id2));
    assert!(!artifacts.contains(&Pvf::from_discriminator(3).as_artifact_id()));
}
