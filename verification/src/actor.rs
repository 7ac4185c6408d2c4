//! The actor layer: the process-wide registry object, the directory API
//! (`start_actor`, `exchange_command`, `exchange_message`), the command state
//! machine, and one cycle of the per-actor run loop.

use crate::codec::{decode, encode, spec_decode, spec_encode};
use crate::directory::{start_error_message, Directory};
use crate::error::{AppError, AppResult};
use crate::mailbox::{create, receive_with_timeout, CommandHandler};
use crate::model::{EnvelopeModel, MessageType, SystemCommand, SystemMessage};
use vstd::prelude::*;
use vstd::rwlock::{RwLock, RwLockPredicate};
use vstd::string::{StrSliceExecFns, StringExecFns};

verus! {

/// The invariant kept inside the registry's lock: directory names stay
/// pairwise distinct.
pub struct DirectoryPred {}

impl RwLockPredicate<Directory> for DirectoryPred {
    open spec fn inv(self, d: Directory) -> bool {
        d.wf()
    }
}

/// The process-wide registry: the actor directory behind a reader-writer
/// lock that is held only across a lookup or an insert, never across a send
/// or a receive. Constructed once at process start and passed to every
/// component that starts actors or sends to them.
pub struct Registry {
    lock: RwLock<Directory, DirectoryPred>,
}

/// What `start_actor` hands back for a fresh name: the actor's name and the
/// receiving end of its mailbox, for the caller to drive with [`run_cycle`]
/// on a task of its own.
pub struct ActorHandle {
    pub name: String,
    pub receiver: crossbeam::channel::Receiver<Vec<u8>>,
}

/// The control envelope that `exchange_command` sends on behalf of `from`.
pub open spec fn command_envelope_model(from: Seq<char>, command: SystemCommand) -> EnvelopeModel {
    EnvelopeModel {
        from: from,
        payload: None,
        correlation_id: None,
        command: Some(command),
        message_type: MessageType::Command,
    }
}

/// Builds the control envelope carrying `command` on behalf of `from`.
pub fn command_envelope(from: String, command: SystemCommand) -> (m: SystemMessage)
    ensures
        m@ == command_envelope_model(from@, command),
{
    let m = SystemMessage {
        from: from,
        payload: None,
        correlation_id: None,
        command: Some(command),
        message_type: MessageType::Command,
    };
    proof {
        assert(m@ =~= command_envelope_model(m.from@, command));
    }
    m
}

/// The payload envelope that `exchange_message` sends on behalf of `from`.
pub open spec fn message_envelope_model(
    from: Seq<char>,
    message: Seq<char>,
    correlation_id: Option<Seq<char>>,
    message_type: MessageType,
) -> EnvelopeModel {
    EnvelopeModel {
        from: from,
        payload: Some(vstd::utf8::encode_utf8(message)),
        correlation_id: correlation_id,
        command: None,
        message_type: message_type,
    }
}

/// Builds the payload envelope carrying the bytes of `message`.
pub fn message_envelope(
    from: String,
    message: String,
    correlation_id: Option<String>,
    message_type: MessageType,
) -> (m: SystemMessage)
    ensures
        m@ == message_envelope_model(
            from@,
            message@,
            match correlation_id {
                Some(c) => Some(c@),
                None => None,
            },
            message_type,
        ),
{
    let payload = message.as_str().as_bytes_vec();
    let m = SystemMessage {
        from: from,
        payload: Some(payload),
        correlation_id: correlation_id,
        command: None,
        message_type: message_type,
    };
    proof {
        assert(m@ =~= message_envelope_model(
            m.from@,
            message@,
            m@.correlation_id,
            m.message_type,
        ));
    }
    m
}

impl Registry {
    /// A registry with no actors.
    pub fn new() -> Registry {
        let d = Directory::new();
        Registry { lock: RwLock::new(d, Ghost(DirectoryPred {})) }
    }

    /// Starts a new actor: creates its mailbox and, under the lock, inserts
    /// the send handle; a name already started is refused with an error
    /// naming the conflict and nothing is created. On success the caller
    /// receives the mailbox's receiving end and drives the run loop itself.
    pub fn start_actor(&self, actor_name: String) -> (r: AppResult<ActorHandle>)
        ensures
            r matches Ok(h) ==> h.name@ == actor_name@,
    {
        let name_copy = actor_name.clone();
        let (handler, receiver) = create();
        let (mut dir, write_handle) = self.lock.acquire_write();
        let result = dir.register(actor_name, handler);
        write_handle.release_write(dir);
        match result {
            Ok(()) => Ok(ActorHandle { name: name_copy, receiver }),
            Err(e) => Err(e),
        }
    }

    /// Sends a control command from `from` to the actor named `to`: builds
    /// the command envelope, encodes it, and enqueues it at `to`'s mailbox.
    /// An unknown destination is a silent no-op: no error, no delivery, and
    /// the registry is read, never changed.
    pub fn exchange_command(&self, from: String, to: String, command: SystemCommand) {
        let envelope = command_envelope(from, command);
        let buffer = encode(&envelope);
        let read_handle = self.lock.acquire_read();
        match read_handle.borrow().lookup(&to) {
            Some(handler) => handler.send(buffer),
            None => {},
        }
        read_handle.release_read();
    }

    /// Sends a payload message from `from` to the actor named `to`, with the
    /// same lookup-and-enqueue discipline as `exchange_command`: an unknown
    /// destination is a silent no-op.
    pub fn exchange_message(
        &self,
        from: String,
        to: String,
        message: String,
        correlation_id: Option<String>,
        message_type: MessageType,
    ) {
        let envelope = message_envelope(from, message, correlation_id, message_type);
        let buffer = encode(&envelope);
        let read_handle = self.lock.acquire_read();
        match read_handle.borrow().lookup(&to) {
            Some(handler) => handler.send(buffer),
            None => {},
        }
        read_handle.release_read();
    }
}

/// Whether the run loop goes on processing the current envelope: `Break`
/// stops further processing of this envelope only; the loop itself always
/// returns to waiting after either signal.
#[derive(Debug, Clone, PartialEq, Eq, Structural)]
pub enum ControlSignal {
    Continue,
    Break,
}

/// The command state machine's transition table: the optional reply owed to
/// the sender, and the control signal, for each command.
pub open spec fn spec_evaluate(c: SystemCommand) -> (Option<SystemCommand>, ControlSignal) {
    match c {
        SystemCommand::Ping => (Some(SystemCommand::Pong), ControlSignal::Break),
        SystemCommand::Pong => (None, ControlSignal::Break),
        SystemCommand::Ack => (Some(SystemCommand::Sequence(123)), ControlSignal::Continue),
        SystemCommand::NoAck => (None, ControlSignal::Continue),
        SystemCommand::HealthCheck => (Some(SystemCommand::Okay), ControlSignal::Break),
        SystemCommand::Okay => (None, ControlSignal::Break),
        SystemCommand::Failed => (None, ControlSignal::Break),
        SystemCommand::Sequence(_) => (None, ControlSignal::Continue),
    }
}

/// The command state machine: stateless across invocations, every envelope
/// is evaluated independently, so an unsolicited reply command is accepted.
pub fn evaluate(command: &SystemCommand) -> (r: (Option<SystemCommand>, ControlSignal))
    ensures
        r == spec_evaluate(*command),
{
    match command {
        SystemCommand::Ping => (Some(SystemCommand::Pong), ControlSignal::Break),
        SystemCommand::Pong => (None, ControlSignal::Break),
        SystemCommand::Ack => (Some(SystemCommand::Sequence(123)), ControlSignal::Continue),
        SystemCommand::NoAck => (None, ControlSignal::Continue),
        SystemCommand::HealthCheck => (Some(SystemCommand::Okay), ControlSignal::Break),
        SystemCommand::Okay => (None, ControlSignal::Break),
        SystemCommand::Failed => (None, ControlSignal::Break),
        SystemCommand::Sequence(_) => (None, ControlSignal::Continue),
    }
}

/// Interprets one control command for the actor named `registered_name`:
/// evaluates the state machine and routes the reply it emits, if any, back
/// to `from` through the registry.
pub fn process_command(
    command: SystemCommand,
    registered_name: &str,
    from: &String,
    registry: &Registry,
) -> (r: ControlSignal)
    ensures
        r == spec_evaluate(command).1,
{
    let (reply, signal) = evaluate(&command);
    match reply {
        Some(out) => {
            registry.exchange_command(String::from_str(registered_name), from.clone(), out);
        },
        None => {},
    }
    signal
}

/// The run loop's state after a cycle: still waiting for envelopes, or
/// terminated for good. Dispatching is transient within one cycle.
#[derive(Debug, Clone, PartialEq, Eq, Structural)]
pub enum RunState {
    Waiting,
    Terminated,
}

/// A received buffer retires its actor exactly when it does not decode.
pub open spec fn spec_step_terminates(bytes: Seq<u8>) -> bool {
    spec_decode(bytes) is None
}

/// The reply that one received buffer makes the receiving actor enqueue: for
/// a decodable envelope carrying a command with a reply, the destination
/// (the envelope's sender) and the reply envelope; otherwise nothing.
pub open spec fn spec_step_reply(self_name: Seq<char>, bytes: Seq<u8>) -> Option<
    (Seq<char>, EnvelopeModel),
> {
    match spec_decode(bytes) {
        None => None,
        Some(m) => match m.command {
            None => None,
            Some(c) => match spec_evaluate(c).0 {
                None => None,
                Some(rc) => Some((m.from, command_envelope_model(self_name, rc))),
            },
        },
    }
}

/// Dispatches one received buffer for the actor named `registered_name`:
/// decodes it, feeds the command state machine and routes its reply, then
/// considers the payload. A `Break` signal only skips the payload of the
/// current envelope; the loop goes on waiting either way. Only a buffer
/// that does not decode retires the actor.
pub fn process_buffer(registered_name: &str, buffer: Vec<u8>, registry: &Registry) -> (r: RunState)
    ensures
        (r == RunState::Terminated) == spec_step_terminates(buffer@),
{
    match decode(&buffer) {
        Err(_) => RunState::Terminated,
        Ok(message) => {
            let from = message.from;
            match message.command {
                Some(command) => {
                    match process_command(command, registered_name, &from, registry) {
                        ControlSignal::Break => {
                            return RunState::Waiting;
                        },
                        ControlSignal::Continue => {},
                    }
                },
                None => {},
            }
            match message.payload {
                Some(_payload) => {
                    // The payload consumer is outside the core: the payload
                    // is an opaque value handed to no one here.
                },
                None => {},
            }
            RunState::Waiting
        },
    }
}

/// One cycle of an actor's run loop: waits up to a second for a buffer and
/// dispatches it. A timeout is the normal idle heartbeat and leaves the
/// actor waiting; there is no other wake source, so callers loop on this.
pub fn run_cycle(
    registered_name: &str,
    receiver: &crossbeam::channel::Receiver<Vec<u8>>,
    registry: &Registry,
) -> (r: RunState)
    ensures
        r == RunState::Waiting || r == RunState::Terminated,
{
    match receive_with_timeout(receiver, 1000) {
        None => RunState::Waiting,
        Some(buffer) => process_buffer(registered_name, buffer, registry),
    }
}

/// A running actor that receives a Ping sent on behalf of `a` replies, in
/// the same receive cycle, with a Pong envelope of its own name addressed
/// back to `a`.
pub proof fn lemma_ping_gets_pong(a: Seq<char>, b: Seq<char>)
    ensures
        spec_step_reply(b, spec_encode(command_envelope_model(a, SystemCommand::Ping))) == Some(
            (a, command_envelope_model(b, SystemCommand::Pong)),
        ),
{
    crate::codec::lemma_codec_round_trip(command_envelope_model(a, SystemCommand::Ping));
}

/// A running actor that receives an Ack sent on behalf of `a` replies with
/// the fixed sequence number envelope addressed back to `a`.
pub proof fn lemma_ack_gets_sequence(a: Seq<char>, b: Seq<char>)
    ensures
        spec_step_reply(b, spec_encode(command_envelope_model(a, SystemCommand::Ack))) == Some(
            (a, command_envelope_model(b, SystemCommand::Sequence(123))),
        ),
{
    crate::codec::lemma_codec_round_trip(command_envelope_model(a, SystemCommand::Ack));
}

/// A running actor that receives a HealthCheck sent on behalf of `a` replies
/// with an Okay envelope addressed back to `a`.
pub proof fn lemma_health_check_gets_okay(a: Seq<char>, b: Seq<char>)
    ensures
        spec_step_reply(b, spec_encode(command_envelope_model(a, SystemCommand::HealthCheck)))
            == Some((a, command_envelope_model(b, SystemCommand::Okay))),
{
    crate::codec::lemma_codec_round_trip(command_envelope_model(a, SystemCommand::HealthCheck));
}

/// An encoded command envelope never retires its receiver: only a buffer
/// that does not decode terminates a run loop.
pub proof fn lemma_command_envelope_keeps_actor_alive(a: Seq<char>, c: SystemCommand)
    ensures
        !spec_step_terminates(spec_encode(command_envelope_model(a, c))),
{
    crate::codec::lemma_codec_round_trip(command_envelope_model(a, c));
}

} // verus!
