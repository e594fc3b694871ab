//! The values that requests carry and responses return.

use crate::failure::Failure;
use crate::store::Store;
use crate::text::{parse_u64, unsigned};
use vstd::prelude::*;

verus! {

/// The largest number of seconds that a request may ask the service to wait.
pub const MAX_SECONDS: u64 = 5;

/// One entry of the list, identified by its `id`.
#[derive(Debug, PartialEq, Eq)]
pub struct Todo {
    pub id: u64,
    pub text: String,
    pub completed: bool,
}

impl Clone for Todo {
    fn clone(&self) -> (copy: Self)
        ensures
            copy == *self,
    {
        Todo { id: self.id, text: self.text.clone(), completed: self.completed }
    }
}

/// Which part of the list a request asks for. An absent `offset` skips
/// nothing and an absent `limit` bounds nothing.
#[derive(Clone, Copy, Debug, PartialEq, Eq, Structural)]
pub struct ListOptions {
    pub offset: Option<usize>,
    pub limit: Option<usize>,
}

impl ListOptions {
    /// How many entries to skip.
    pub open spec fn skipped(self) -> nat {
        match self.offset {
            Some(n) => n as nat,
            None => 0,
        }
    }

    /// How many entries to return at most.
    pub open spec fn bound(self) -> nat {
        match self.limit {
            Some(n) => n as nat,
            None => usize::MAX as nat,
        }
    }
}

/// What `src` holds as a number, or that it is no decimal numeral of 64 bits.
pub open spec fn extracted_number(src: Seq<char>) -> Result<u64, Failure> {
    match unsigned(src) {
        Some(n) => Ok(n),
        None => Err(Failure::MalformedParameter),
    }
}

/// Reads the number that a segment of a path holds.
pub fn extract_number(src: &str) -> (r: Result<u64, Failure>)
    ensures
        r == extracted_number(src@),
{
    match parse_u64(src) {
        Some(n) => Ok(n),
        None => Err(Failure::MalformedParameter),
    }
}

/// A number of seconds that lies in the interval from 0 to `MAX_SECONDS`
/// wherever it comes out of `from_str` or `extract`.
#[derive(Clone, Copy, Debug, PartialEq, Eq, Structural)]
pub struct Seconds(pub u64);

impl Seconds {
    /// What `src` holds as a number of seconds, or the reason why it holds
    /// none: it is no decimal numeral of 64 bits, or it exceeds the bound.
    pub open spec fn extracted(src: Seq<char>) -> Result<Seconds, Failure> {
        match extracted_number(src) {
            Err(failure) => Err(failure),
            Ok(n) => if n <= MAX_SECONDS {
                Ok(Seconds(n))
            } else {
                Err(Failure::OutOfRange)
            },
        }
    }

    /// Reads a number of seconds, telling a malformed numeral from one that
    /// is out of range.
    pub fn extract(src: &str) -> (r: Result<Seconds, Failure>)
        ensures
            r == Seconds::extracted(src@),
    {
        match extract_number(src) {
            Err(failure) => Err(failure),
            Ok(n) => if n <= MAX_SECONDS {
                Ok(Seconds(n))
            } else {
                Err(Failure::OutOfRange)
            },
        }
    }

    /// Reads a number of seconds. A numeral above the bound is refused, not
    /// clamped.
    pub fn from_str(src: &str) -> (r: Result<Seconds, ()>)
        ensures
            r is Ok <==> Seconds::extracted(src@) is Ok,
            r matches Ok(s) ==> Seconds::extracted(src@) == Ok::<Seconds, Failure>(s) && s.0
                <= MAX_SECONDS,
    {
        match Seconds::extract(src) {
            Ok(s) => Ok(s),
            Err(_) => Err(()),
        }
    }
}

/// A person and their rate, as the registration endpoint takes and returns it.
#[derive(Debug, PartialEq, Eq)]
pub struct Employee {
    pub name: String,
    pub rate: u32,
}

/// The body of every response that reports a failure.
#[derive(Debug, PartialEq, Eq)]
pub struct ErrorMessage {
    pub code: u16,
    pub message: String,
}

/// The store as the service holds it.
pub type DB = Store;

/// A store with no entry in it.
pub fn blank_db() -> (db: DB)
    ensures
        db@ == Seq::<Todo>::empty(),
{
    Store::new()
}

} // verus!
