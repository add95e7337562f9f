//! Common logic of the worker lifecycle.
//!
//! Each worker is a separate process that connects back to the host over a
//! private rendezvous socket. The socket's path must be fresh; its name is
//! built here from a fixed prefix and a random alphanumeric discriminator.
//! The spawning, binding, accepting and timeout handling around it are I/O
//! and live outside the library, reporting their failures as [`SpawnErr`].

use rand::distributions::Alphanumeric;
use rand::distributions::DistString;
use vstd::prelude::*;
use vstd::string::StrSliceExecFns;
use vstd::string::StringExecFns;

verus! {

/// An error that happened while spawning a worker process.
#[derive(Clone, Copy, Debug, PartialEq, Eq, Structural)]
pub enum SpawnErr {
    /// Cannot obtain a temporary file location.
    TmpFile,
    /// Cannot bind the socket to the given path.
    Bind,
    /// An error happened during accepting a connection to the socket.
    Accept,
    /// An error happened during spawning the process.
    ProcessSpawn,
    /// The deadline allotted for the worker spawning and connecting to the
    /// socket has elapsed.
    AcceptTimeout,
}

impl SpawnErr {
    /// A short account of the failure, for the log.
    pub fn describe(&self) -> (r: String)
        ensures
            r@ == spawn_err_text(*self),
    {
        match self {
            SpawnErr::TmpFile => String::from_str("cannot obtain a temporary file location"),
            SpawnErr::Bind => String::from_str("cannot bind the socket"),
            SpawnErr::Accept => String::from_str("cannot accept a connection"),
            SpawnErr::ProcessSpawn => String::from_str("cannot spawn the process"),
            SpawnErr::AcceptTimeout => String::from_str("the spawn deadline elapsed"),
        }
    }
}

/// The account [`SpawnErr::describe`] gives of each failure.
pub open spec fn spawn_err_text(e: SpawnErr) -> Seq<char> {
    match e {
        SpawnErr::TmpFile => "cannot obtain a temporary file location"@,
        SpawnErr::Bind => "cannot bind the socket"@,
        SpawnErr::Accept => "cannot accept a connection"@,
        SpawnErr::ProcessSpawn => "cannot spawn the process"@,
        SpawnErr::AcceptTimeout => "the spawn deadline elapsed"@,
    }
}

/// How many random characters distinguish one candidate file name from the
/// next.
pub const DISCRIMINATOR_LEN: usize = 10;

/// Whether `c` is one of the characters the discriminator is drawn from.
pub open spec fn is_alphanumeric_char(c: char) -> bool {
    (48 <= c as u32 && c as u32 <= 57) || (65 <= c as u32 && c as u32 <= 90) || (97 <= c as u32
        && c as u32 <= 122)
}

/// Relies on rand's `Alphanumeric` distribution with `DistString`: the
/// sample is a string of exactly `len` characters, each drawn from A–Z,
/// a–z and 0–9. Which characters come out depends on the generator's
/// state, so nothing more is promised.
#[verifier::external_body]
fn random_alphanumeric_string(len: usize) -> (r: String)
    ensures
        r@.len() == len,
        forall|i: int| 0 <= i < r@.len() ==> is_alphanumeric_char(#[trigger] r@[i]),
{
    Alphanumeric.sample_string(&mut rand::thread_rng(), len)
}

/// Builds one candidate name for a transient file: the prefix followed by a
/// random alphanumeric discriminator. Whether a file of that name already
/// exists is for the caller to check against the directory; a fresh call
/// gives a fresh candidate.
pub fn tmpfile_name(prefix: &str) -> (r: String)
    ensures
        r@.len() == prefix@.len() + DISCRIMINATOR_LEN,
        r@.take(prefix@.len() as int) == prefix@,
        forall|i: int|
            prefix@.len() <= i < r@.len() ==> is_alphanumeric_char(#[trigger] r@[i]),
{
    let mut name = String::from_str(prefix);
    let suffix = random_alphanumeric_string(DISCRIMINATOR_LEN);
    name.append(suffix.as_str());
    proof {
        assert(name@.take(prefix@.len() as int) =~= prefix@);
        assert(forall|i: int|
            prefix@.len() <= i < name@.len() ==> name@[i] == suffix@[i - prefix@.len()]);
    }
    name
}

} // verus!
