//! The error taxonomy: recoverable application errors, dictionary lookup
//! errors, runtime decoding errors and service-level failures.

use crate::text::{lower_of, lowercase};
use vstd::prelude::*;

verus! {

pub type RuntimeResult<T> = Result<T, RuntimeError>;

pub type ServiceExuctionResult<T> = Result<T, ServiceError>;

pub type TestResult<T> = Result<T, TestError>;

pub type AppResult<T> = Result<T, AppError>;

#[derive(Debug, PartialEq)]
pub struct DictionaryError {
    pub message: String,
    pub error_kind: DictionaryErrorKind,
}

#[derive(Debug, PartialEq)]
pub struct RuntimeError {
    pub message: String,
    pub error_type: RuntimeErrorType,
}

#[derive(Debug, PartialEq, Eq, Structural)]
pub enum RuntimeErrorType {
    InvalidData,
    NotFound,
}

#[derive(Debug, PartialEq)]
pub struct ServiceError {
    pub message: String,
    pub error_type: ServiceErrorType,
}

#[derive(Debug, PartialEq, Eq, Structural)]
pub enum ServiceErrorType {
    Failure,
    SerializationError,
    ResourceNotFound,
    IOError,
    Unavailable,
}

#[derive(Debug, PartialEq)]
pub struct TestError {
    pub message: String,
    pub error_type: TestErrorType,
}

#[derive(Debug, PartialEq, Eq, Structural)]
pub enum TestErrorType {
    Timeout,
    WrongAnswer,
}

#[derive(Debug, PartialEq)]
pub struct AppError {
    pub message: String,
}

impl AppError {
    /// An application error whose message is the given text, lowered.
    pub fn throw(msg: &str) -> (r: Self)
        ensures
            r.message@ == lower_of(msg@),
    {
        AppError { message: lowercase(msg) }
    }
}

#[derive(Debug, PartialEq, Eq, Structural)]
pub enum DictionaryErrorKind {
    NotFound,
    Timeout,
    InvalidData,
    WrongAnswer,
    SerializationError,
    IOError,
}

impl DictionaryError {
    /// A dictionary error of the given kind whose message is the given text,
    /// lowered.
    pub fn throw(msg: &str, error_type: DictionaryErrorKind) -> (r: Self)
        ensures
            r.message@ == lower_of(msg@),
            r.error_kind == error_type,
    {
        DictionaryError { message: lowercase(msg), error_kind: error_type }
    }
}

} // verus!
