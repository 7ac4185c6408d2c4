//! An in-process actor and message-bus library: a named-mailbox registry, a
//! verified envelope codec, and a command state machine that let independently
//! running workers exchange control messages and opaque payloads.

pub mod actor;
pub mod cambridge;
pub mod codec;
pub mod collins;
pub mod directory;
pub mod error;
pub mod files;
pub mod mailbox;
pub mod model;
pub mod oxford;
pub mod scrape;
pub mod text;
pub mod utils;
pub mod web;

use crate::model::{ProcessResult, Request, Response};
use vstd::prelude::*;

verus! {

pub trait Processor<S, T: core::fmt::Debug> {
    fn map(source: S) -> ProcessResult<T>;

    fn process(&self, message: T) -> ProcessResult<T>;

    fn from(&self) -> String;

    fn receive(&self) -> ProcessResult<T>;
}

pub trait ServerProcessor<S, Req: core::fmt::Debug + Request, Res: core::fmt::Debug + Response> {
    fn receive(&self) -> ProcessResult<Req>;

    fn validate(&self, request: Req) -> bool;

    fn process(&self, message: Req) -> ProcessResult<Res>;

    fn response(&self, response: Res) -> ProcessResult<Res>;
}

} // verus!
