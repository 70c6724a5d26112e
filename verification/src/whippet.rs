//! Decisions of the D-Bus broker launcher: how the broker process is invoked,
//! and the readiness notification it sends to systemd.
use crate::text::{chars_of, push_decimal, push_signed_decimal, signed_decimal, decimal, string_from_chars, string_of, trim_chars, trimmed};
use vstd::prelude::*;

verus! {

/// Default outgoing byte limit of a connection.
pub const DEFAULT_MAX_OUTGOING_BYTES: u64 = 8 * 1024 * 1024;
/// Default outgoing file descriptor limit of a connection.
pub const DEFAULT_MAX_OUTGOING_UNIX_FDS: u64 = 64;
/// Default number of connections per user.
pub const DEFAULT_MAX_CONNECTIONS_PER_USER: u64 = 64;
/// Default number of match rules per connection.
pub const DEFAULT_MAX_MATCH_RULES_PER_CONNECTION: u64 = 256;
/// Per-user byte limit (per connection times connections).
pub const MAX_BYTES: u64 = DEFAULT_MAX_CONNECTIONS_PER_USER * DEFAULT_MAX_OUTGOING_BYTES;
/// Per-user file descriptor limit.
pub const MAX_FDS: u64 = DEFAULT_MAX_CONNECTIONS_PER_USER * DEFAULT_MAX_OUTGOING_UNIX_FDS;
/// Per-user match rule limit.
pub const MAX_MATCHES: u64 = DEFAULT_MAX_CONNECTIONS_PER_USER * DEFAULT_MAX_MATCH_RULES_PER_CONNECTION;

/// Errors of the launcher's decisions.
#[derive(Clone, Debug)]
pub enum WhippetError {
    /// Sending the readiness notification to systemd failed.
    SystemdNotification { message: String },
}

/// The broker before it is started.
#[derive(Clone, Debug)]
pub struct BrokerChildInitial {
    pub broker_path: String,
}

/// The arguments of the broker: its log and controller sockets, the machine id,
/// and the per-user limits.
pub open spec fn broker_args_spec(log_fd: i32, controller_fd: i32, machine_id: Seq<char>) -> Seq<Seq<char>> {
    seq![
        "--log"@,
        signed_decimal(log_fd as int),
        "--controller"@,
        signed_decimal(controller_fd as int),
        "--machine-id"@,
        machine_id,
        "--max-bytes"@,
        decimal(MAX_BYTES as nat),
        "--max-fds"@,
        decimal(MAX_FDS as nat),
        "--max-matches"@,
        decimal(MAX_MATCHES as nat),
    ]
}

impl BrokerChildInitial {
    /// A broker to be started from `broker_path`.
    pub fn new(broker_path: &str) -> (r: Result<BrokerChildInitial, WhippetError>)
        ensures
            r matches Ok(c) && c.broker_path@ == broker_path@,
    {
        Ok(BrokerChildInitial { broker_path: string_of(broker_path) })
    }

    /// The broker's arguments, given the descriptors of its journal and
    /// controller sockets and the text of the machine-id file (whose surrounding
    /// white space is dropped).
    pub fn broker_args(&self, log_fd: i32, controller_fd: i32, machine_id_text: &str) -> (r: Vec<String>)
        ensures
            r@.len() == 12,
            forall|i: int| 0 <= i < 12 ==> #[trigger] r@[i]@ == broker_args_spec(log_fd, controller_fd, trimmed(machine_id_text@))[i],
    {
        let mut r: Vec<String> = Vec::new();
        r.push(string_of("--log"));
        let mut fd = String::new();
        push_signed_decimal(&mut fd, log_fd);
        r.push(fd);
        r.push(string_of("--controller"));
        let mut fd2 = String::new();
        push_signed_decimal(&mut fd2, controller_fd);
        r.push(fd2);
        r.push(string_of("--machine-id"));
        let v = chars_of(machine_id_text);
        let id = trim_chars(v.as_slice());
        r.push(string_from_chars(id.as_slice()));
        r.push(string_of("--max-bytes"));
        let mut b = String::new();
        push_decimal(&mut b, MAX_BYTES);
        r.push(b);
        r.push(string_of("--max-fds"));
        let mut f = String::new();
        push_decimal(&mut f, MAX_FDS);
        r.push(f);
        r.push(string_of("--max-matches"));
        let mut m = String::new();
        push_decimal(&mut m, MAX_MATCHES);
        r.push(m);
        r
    }
}

/// The readiness notification systemd expects: `READY=1`.
pub open spec fn ready_message() -> Seq<u8> {
    seq![0x52u8, 0x45u8, 0x41u8, 0x44u8, 0x59u8, 0x3Du8, 0x31u8]
}

/// Tells systemd that the service is ready: hands `READY=1` to `send` (which
/// writes it to the notification socket) once, and reports a failed send.
pub fn notify_systemd_ready<F>(send: F) -> (r: Result<(), WhippetError>)
    where
        F: FnOnce(Vec<u8>) -> Result<usize, String>,
    requires
        forall|m: Vec<u8>| m@ == ready_message() ==> #[trigger] send.requires((m,)),
    ensures
        exists|m: Vec<u8>, out: Result<usize, String>| #[trigger] send.ensures((m,), out) && m@ == ready_message() && (
        match out {
            Ok(_) => r is Ok,
            Err(e) => r matches Err(WhippetError::SystemdNotification { message }) && message@ == e@,
        }),
{
    let msg: Vec<u8> = vec![0x52u8, 0x45u8, 0x41u8, 0x44u8, 0x59u8, 0x3Du8, 0x31u8];
    assert(msg@ =~= ready_message());
    let ghost m = msg;
    let out = send(msg);
    match out {
        Ok(_) => Ok(()),
        Err(e) => Err(WhippetError::SystemdNotification { message: e }),
    }
}

} // verus!
