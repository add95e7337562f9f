//! Log lines of different shapes pass through the host's error logging as
//! job-level notes: they are built, handed over and swallowed without a
//! panic, and never stop the loop.

use pvf_host::error::log_error;
use pvf_host::error::HostError;

#[test]
fn plain() {
    let r = log_error(Err(HostError::JobLevel(String::from("plain"))), "pvf");
    assert!(r.is_ok());
}

#[test]
fn wo_alias() {
    let a: i32 = 7;
    let line = format!(
        "Something something {}, {:?}, or maybe {}",
        a,
        Some(a),
        a
    );
    let r = log_error(Err(HostError::JobLevel(line)), "foo");
    assert!(r.is_ok());
}

#[test]
fn wo_unnecessary() {
    let a: i32 = 7;
    let line = format!("fff {c}", c = a);
    let r = log_error(Err(HostError::JobLevel(line)), "bar");
    assert!(r.is_ok());
}
