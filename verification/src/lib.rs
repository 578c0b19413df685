use vstd::prelude::*;
use vstd::string::*;

pub mod backend;
pub mod cli;
pub mod comm;
pub mod constants;
pub mod copy;
pub mod cuda;
pub mod layout;
pub mod runtime;
pub mod text;

use crate::text::{append_decimal, append_signed_decimal, decimal, signed_decimal};

verus! {

/// An I/O error of the standard library, carried through unchanged.
#[verifier::external_type_specification]
#[verifier::external_body]
pub struct ExIoError(std::io::Error);

/// A string that held a NUL byte where a C string was needed: where the byte
/// stood and the bytes that were given.
#[derive(Debug)]
pub struct InvalidCString {
    pub nul_position: usize,
    pub bytes: Vec<u8>,
}

/// Everything that can go wrong in the checkpoint/restore library.
#[derive(Debug)]
pub enum Error {
    Io(std::io::Error),
    CString(InvalidCString),
    Cuda { code: i32, message: String },
    Hip { code: i32, message: String },
    Protocol(String),
    Process(String),
}

pub type Result<T> = std::result::Result<T, Error>;

/// How an error other than `Io` reads, as the user sees it.
pub open spec fn error_text(e: Error) -> Seq<char> {
    match e {
        Error::Io(_) => Seq::empty(),
        Error::CString(c) => "invalid c string: nul byte found in provided data at position: "@
            + decimal(c.nul_position as nat),
        Error::Cuda { code, message } => "cuda error "@ + signed_decimal(code as int) + ": "@
            + message@,
        Error::Hip { code, message } => "hip error "@ + signed_decimal(code as int) + ": "@
            + message@,
        Error::Protocol(message) => "protocol error: "@ + message@,
        Error::Process(message) => "process error: "@ + message@,
    }
}

impl Error {
    /// The text of the error, as its `Display` shows it.
    pub fn message(&self) -> (r: String)
        ensures
            self is Io ==> exists|s: String|
                to_string_from_display_ensures::<std::io::Error>(&self->Io_0, s) && r@ == "io error: "@
                    + s@,
            !(self is Io) ==> r@ == error_text(*self),
    {
        match self {
            Error::Io(err) => {
                let detail = err.to_string();
                let mut r = String::from_str("io error: ");
                r.append(detail.as_str());
                r
            },
            Error::CString(c) => {
                let mut r = String::from_str(
                    "invalid c string: nul byte found in provided data at position: ",
                );
                append_decimal(&mut r, c.nul_position as u64);
                r
            },
            Error::Cuda { code, message } => {
                let mut r = String::from_str("cuda error ");
                append_signed_decimal(&mut r, *code as i64);
                r.append(": ");
                r.append(message.as_str());
                r
            },
            Error::Hip { code, message } => {
                let mut r = String::from_str("hip error ");
                append_signed_decimal(&mut r, *code as i64);
                r.append(": ");
                r.append(message.as_str());
                r
            },
            Error::Protocol(message) => {
                let mut r = String::from_str("protocol error: ");
                r.append(message.as_str());
                r
            },
            Error::Process(message) => {
                let mut r = String::from_str("process error: ");
                r.append(message.as_str());
                r
            },
        }
    }
}

impl From<std::io::Error> for Error {
    fn from(value: std::io::Error) -> (r: Self) {
        Error::Io(value)
    }
}

impl vstd::std_specs::convert::FromSpecImpl<std::io::Error> for Error {
    open spec fn obeys_from_spec() -> bool {
        true
    }

    open spec fn from_spec(v: std::io::Error) -> Error {
        Error::Io(v)
    }
}

} // verus!
