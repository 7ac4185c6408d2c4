//! The message model: envelopes exchanged between actors, control commands,
//! message type tags, and the traits that request and response processors
//! implement.

use crate::text::{chars_of, lower_of, lowercase, string_of, trim_in, trim_spec};
use vstd::prelude::*;
use vstd::string::StringExecFns;

verus! {

pub type ProcessResult<T> = Result<T, ProcessError>;

#[derive(Debug, Clone)]
pub struct ProcessError {
    pub reason: Option<String>,
    pub error_type: ProcessErrorType,
}

#[derive(Debug, Clone, PartialEq, Eq, Structural)]
pub enum MessageType {
    Request,
    Response,
    Command,
}

#[derive(Debug, Clone, PartialEq, Eq, Structural)]
pub enum ProcessErrorType {
    Continue,
    Break,
    Fatal,
}

pub trait Request {
    fn correlation_id(&self) -> String;

    fn from(&self) -> String;

    fn command(&self) -> Command;

    fn payload(&self) -> Option<Vec<u8>>;
}

pub trait Response {
    fn correlation_id(&self) -> String;

    fn status(&self) -> Status;

    fn payload(&self) -> Option<Vec<u8>>;
}

pub struct BaseMessage {
    pub from: String,
    pub payload: Option<Vec<u8>>,
    pub correlation_id: Option<String>,
    pub sequence: Option<u32>,
    pub headers: Option<Vec<BaseMessageHeader>>,
}

#[derive(Debug, Clone, PartialEq, Eq, Structural)]
pub enum BaseMessageHeader {
    NoAck,
    Ack,
    Ping,
    Pong,
}

#[derive(Debug, Clone)]
pub struct Message {
    pub from: Option<String>,
    pub correlation_id: String,
    pub message_type: MessageType,
    pub ack: Option<bool>,
    pub command: Option<Command>,
    pub status: Option<Status>,
    pub payload: Option<Vec<u8>>,
}

#[derive(Debug, Clone, PartialEq, Eq, Structural)]
pub enum Command {
    Stop,
    Ping,
    Status,
    Execute,
    Pause,
    Undefined,
}

#[derive(Debug, Clone, PartialEq, Eq, Structural)]
pub enum Status {
    Okay,
    Error,
    InProgress,
}

/// The command that the given text names, after lowering and trimming.
pub open spec fn spec_command_from(s: Seq<char>) -> Command {
    let t = trim_spec(lower_of(s));
    if t == "stop"@ {
        Command::Stop
    } else if t == "ping"@ {
        Command::Ping
    } else if t == "status"@ {
        Command::Status
    } else if t == "execute"@ {
        Command::Execute
    } else if t == "pause"@ {
        Command::Pause
    } else {
        Command::Undefined
    }
}

impl From<String> for Command {
    fn from(source: String) -> (r: Self) {
        let lowered = lowercase(source.as_str());
        let cs = chars_of(lowered.as_str());
        let trimmed = trim_in(&cs);
        let t = string_of(&trimmed);
        if t == String::from_str("stop") {
            Command::Stop
        } else if t == String::from_str("ping") {
            Command::Ping
        } else if t == String::from_str("status") {
            Command::Status
        } else if t == String::from_str("execute") {
            Command::Execute
        } else if t == String::from_str("pause") {
            Command::Pause
        } else {
            Command::Undefined
        }
    }
}

impl vstd::std_specs::convert::FromSpecImpl<String> for Command {
    open spec fn obeys_from_spec() -> bool {
        true
    }

    open spec fn from_spec(t: String) -> Command {
        spec_command_from(t@)
    }
}

/// The message type that the given text names, after lowering and trimming.
pub open spec fn spec_message_type_from(s: Seq<char>) -> MessageType {
    if trim_spec(lower_of(s)) == "respsone"@ {
        MessageType::Response
    } else {
        MessageType::Request
    }
}

impl From<String> for MessageType {
    fn from(source: String) -> (r: Self) {
        let lowered = lowercase(source.as_str());
        let cs = chars_of(lowered.as_str());
        let trimmed = trim_in(&cs);
        let t = string_of(&trimmed);
        if t == String::from_str("respsone") {
            MessageType::Response
        } else {
            MessageType::Request
        }
    }
}

impl vstd::std_specs::convert::FromSpecImpl<String> for MessageType {
    open spec fn obeys_from_spec() -> bool {
        true
    }

    open spec fn from_spec(t: String) -> MessageType {
        spec_message_type_from(t@)
    }
}

/// The status that the given text names, after lowering and trimming.
pub open spec fn spec_status_from(s: Seq<char>) -> Status {
    let t = trim_spec(lower_of(s));
    if t == "ok"@ {
        Status::Okay
    } else if t == "inprogress"@ || t == "in_progress"@ {
        Status::InProgress
    } else {
        Status::Error
    }
}

impl From<String> for Status {
    fn from(source: String) -> (r: Self) {
        let lowered = lowercase(source.as_str());
        let cs = chars_of(lowered.as_str());
        let trimmed = trim_in(&cs);
        let t = string_of(&trimmed);
        if t == String::from_str("ok") {
            Status::Okay
        } else if t == String::from_str("inprogress") || t == String::from_str("in_progress") {
            Status::InProgress
        } else {
            Status::Error
        }
    }
}

impl vstd::std_specs::convert::FromSpecImpl<String> for Status {
    open spec fn obeys_from_spec() -> bool {
        true
    }

    open spec fn from_spec(t: String) -> Status {
        spec_status_from(t@)
    }
}

impl Default for MessageType {
    fn default() -> (r: Self)
        ensures
            r == MessageType::Request,
    {
        MessageType::Request
    }
}

#[derive(Debug, Clone, PartialEq, Eq, Structural)]
pub enum SystemCommand {
    Ping,
    Pong,
    Ack,
    NoAck,
    HealthCheck,
    Okay,
    Failed,
    Sequence(u32),
}

/// The envelope exchanged between actors: the wire-level unit holding the
/// sender's name, an optional control command, an optional opaque payload, an
/// optional caller-assigned correlation id, and a type tag.
#[derive(Debug, Clone)]
pub struct SystemMessage {
    pub from: String,
    pub payload: Option<Vec<u8>>,
    pub correlation_id: Option<String>,
    pub command: Option<SystemCommand>,
    pub message_type: MessageType,
}

/// The mathematical model of an envelope.
#[verifier::ext_equal]
pub ghost struct EnvelopeModel {
    pub from: Seq<char>,
    pub payload: Option<Seq<u8>>,
    pub correlation_id: Option<Seq<char>>,
    pub command: Option<SystemCommand>,
    pub message_type: MessageType,
}

impl View for SystemMessage {
    type V = EnvelopeModel;

    open spec fn view(&self) -> EnvelopeModel {
        EnvelopeModel {
            from: self.from@,
            payload: match self.payload {
                Some(p) => Some(p@),
                None => None,
            },
            correlation_id: match self.correlation_id {
                Some(c) => Some(c@),
                None => None,
            },
            command: self.command,
            message_type: self.message_type,
        }
    }
}

impl PartialEq for SystemMessage {
    fn eq(&self, other: &SystemMessage) -> (r: bool) {
        let from_eq = self.from.eq(&other.from);
        let payload_eq = match (&self.payload, &other.payload) {
            (Some(a), Some(b)) => {
                let e = a.eq(b);
                proof {
                    if e {
                        assert(a@ =~= b@);
                    }
                }
                e
            },
            (None, None) => true,
            _ => false,
        };
        let corr_eq = match (&self.correlation_id, &other.correlation_id) {
            (Some(a), Some(b)) => a.eq(b),
            (None, None) => true,
            _ => false,
        };
        let command_eq = match (&self.command, &other.command) {
            (Some(a), Some(b)) => *a == *b,
            (None, None) => true,
            _ => false,
        };
        let type_eq = self.message_type == other.message_type;
        let r = from_eq && payload_eq && corr_eq && command_eq && type_eq;
        proof {
            if r {
                assert(self@ =~= other@);
            }
        }
        r
    }
}

impl vstd::std_specs::cmp::PartialEqSpecImpl for SystemMessage {
    open spec fn obeys_eq_spec() -> bool {
        true
    }

    open spec fn eq_spec(&self, other: &SystemMessage) -> bool {
        self@ == other@
    }
}

pub trait Reply {
    fn reply(&self) -> bool;

    fn message_type(&self) -> MessageType;
}

pub trait MessageHandler<Rhs = Self> {
    type Output;

    fn handle(self, message: Rhs) -> ProcessResult<Self::Output>;
}

#[derive(Debug, Clone)]
pub struct WordListReq {
    pub words: Vec<String>,
}

#[derive(Debug, Clone)]
pub struct WordListRes {
    pub processed: Vec<String>,
    pub not_found: Vec<String>,
}

impl Reply for WordListReq {
    fn reply(&self) -> bool {
        true
    }

    fn message_type(&self) -> MessageType {
        MessageType::Request
    }
}

impl Reply for WordListRes {
    fn reply(&self) -> bool {
        false
    }

    fn message_type(&self) -> MessageType {
        MessageType::Response
    }
}

} // verus!
