//! The connection worker: the per-line protocol of one client connection.
//!
//! A worker owns one connection for its lifetime. It reads lines under a
//! short timeout so it can re-check the shutdown flag, plans what each line
//! requires — reply only, execute a read, or append to the durable log and
//! only then execute the mutation — and applies commands to the shared
//! store under its lock. The socket reads and writes and the log file
//! append live outside; every decision between them is made and proved
//! here.

use crate::codec::{encode_entry, json_encode_spec};
use crate::command::{parse_command, parse_spec, wf_command, Command, CommandModel};
use crate::store::Store;
use crate::wal::apply_model;
use vstd::prelude::*;
use vstd::string::StringExecFns;

verus! {

/// The acknowledgment line for an applied mutation.
pub open spec fn resp_ok() -> Seq<char> {
    "OK"@
}

/// The line reporting an absent key.
pub open spec fn resp_nil() -> Seq<char> {
    "(nil)"@
}

/// The response a command must receive, given the store state it was
/// applied to: `SET` is acknowledged with `OK`; `GET` answers the bound
/// value, or `(nil)` when the key is absent; `DELETE` answers `OK` when a
/// key was actually removed and `(nil)` otherwise.
pub open spec fn response_spec(m: Map<Seq<char>, Seq<char>>, c: CommandModel) -> Seq<char> {
    match c {
        CommandModel::SET { .. } => resp_ok(),
        CommandModel::GET { key } => if m.contains_key(key) {
            m[key]
        } else {
            resp_nil()
        },
        CommandModel::DELETE { key } => if m.contains_key(key) {
            resp_ok()
        } else {
            resp_nil()
        },
    }
}

/// What one raw input line obliges the worker to do.
pub enum LineAction {
    /// The line did not parse: send the error text back, touch neither the
    /// log nor the store, and keep the connection open.
    Reply { text: String },
    /// A read-only command: execute it against the store (no log write) and
    /// send the response back.
    Execute { cmd: Command },
    /// A mutating command: append `entry` as one line of the durable log
    /// and flush it; only if that succeeds may `cmd` be executed against
    /// the store and the response sent. If the append fails, the command
    /// must never reach the store and the failure is fatal for this
    /// connection.
    AppendThenExecute { entry: String, cmd: Command },
}

/// Decide what one raw line requires. Pure: nothing is read or written
/// here, so a line whose plan is `Reply` provably leaves log and store
/// untouched.
pub fn plan_line(input: &str) -> (a: LineAction)
    ensures
        match a {
            LineAction::Reply { text } => parse_spec(input@) matches Err(e) && e == text@,
            LineAction::Execute { cmd } => parse_spec(input@) == Ok::<_, Seq<char>>(cmd@)
                && !cmd@.is_mutation() && wf_command(cmd@),
            LineAction::AppendThenExecute { entry, cmd } => parse_spec(input@) == Ok::<
                _,
                Seq<char>,
            >(cmd@) && cmd@.is_mutation() && wf_command(cmd@) && entry@ == json_encode_spec(cmd@),
        },
{
    match parse_command(input) {
        Err(text) => LineAction::Reply { text },
        Ok(cmd) => {
            if cmd.is_mutation() {
                let entry = encode_entry(&cmd);
                LineAction::AppendThenExecute { entry, cmd }
            } else {
                LineAction::Execute { cmd }
            }
        },
    }
}

/// Execute one parsed command against the store and produce the response
/// line. For a mutating command the caller has already appended the
/// command's log entry and seen the flush succeed; this is the whole
/// critical section, pure in-memory work while the store's lock is held.
pub fn execute_command(store: &mut Store, cmd: Command) -> (resp: String)
    requires
        old(store).wf(),
        wf_command(cmd@),
    ensures
        final(store).wf(),
        final(store)@ == apply_model(old(store)@, cmd@),
        resp@ == response_spec(old(store)@, cmd@),
{
    match cmd {
        Command::SET { key, value } => {
            store.set(key, value);
            String::from_str("OK")
        },
        Command::GET { key } => {
            match store.get(key.as_str()) {
                Some(v) => v.clone(),
                None => String::from_str("(nil)"),
            }
        },
        Command::DELETE { key } => {
            if store.delete(key.as_str()) {
                String::from_str("OK")
            } else {
                String::from_str("(nil)")
            }
        },
    }
}

/// The states of one connection worker. `Reading` waits on the socket
/// under the read timeout; a read outcome moves through `Dispatching` and
/// `Responding` and back to `Reading`. The three `Closed` states are
/// terminal: the worker makes no further reads once it reaches one.
pub enum WorkerState {
    Reading,
    Dispatching,
    Responding,
    ClosedByPeer,
    ClosedByError,
    ClosedByShutdown,
}

impl WorkerState {
    /// The worker's loop is over.
    pub open spec fn is_terminal(self) -> bool {
        self is ClosedByPeer || self is ClosedByError || self is ClosedByShutdown
    }
}

/// What one attempt to read a line produced.
pub enum ReadEvent {
    /// The timeout elapsed with no data.
    Timeout,
    /// A read of zero bytes: the peer closed the connection.
    Eof,
    /// A full line arrived.
    Line,
    /// An I/O failure other than the timeout.
    Failure,
}

/// One turn of the worker's read loop: the shutdown flag, checked first,
/// wins over everything — including a line that arrived in the same poll
/// interval as the signal, which is then dropped as the connection closes
/// without a response; a client sees a terminated connection, never a lost
/// acknowledged command. So once the flag is set every worker terminates
/// within one read-timeout interval; otherwise the read outcome decides.
pub fn worker_read_step(shutdown_set: bool, ev: ReadEvent) -> (s: WorkerState)
    ensures
        shutdown_set ==> s == WorkerState::ClosedByShutdown,
        !shutdown_set ==> s == match ev {
            ReadEvent::Timeout => WorkerState::Reading,
            ReadEvent::Eof => WorkerState::ClosedByPeer,
            ReadEvent::Line => WorkerState::Dispatching,
            ReadEvent::Failure => WorkerState::ClosedByError,
        },
        s.is_terminal() ==> (shutdown_set || ev is Eof || ev is Failure),
{
    if shutdown_set {
        WorkerState::ClosedByShutdown
    } else {
        match ev {
            ReadEvent::Timeout => WorkerState::Reading,
            ReadEvent::Eof => WorkerState::ClosedByPeer,
            ReadEvent::Line => WorkerState::Dispatching,
            ReadEvent::Failure => WorkerState::ClosedByError,
        }
    }
}

} // verus!
