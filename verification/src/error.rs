//! What can go wrong while a record is transcribed.

use crate::text;
use crate::text::decimal_string;
use vstd::prelude::*;

verus! {

/// Why a file name is not an unsigned integer.
#[derive(Debug, Clone, Copy, PartialEq, Eq, Structural)]
pub enum IntError {
    /// There are no characters at all.
    Empty,
    /// A character is not a digit, or there is a sign and nothing else.
    InvalidDigit,
    /// The number is larger than the largest `usize`.
    PosOverflow,
}

/// Why the bytes of an arena file are not an arena.
#[derive(Debug, Clone, Copy, PartialEq, Eq, Structural)]
pub enum ArenaError {
    /// The buffer is smaller than an arena header.
    BufferTooSmall { got: usize, needed: usize },
    /// The capacity in the header is not the length of the buffer.
    InvalidCapacity { expected: usize, actual: usize },
    /// The header claims more used bytes than its capacity.
    InvalidSize { size: usize, capacity: usize },
    /// The used bytes of an ops arena are not a header followed by whole ops.
    Misaligned { size: usize, header_size: usize, op_size: usize },
    /// The header belongs to another instantiation than the file's name says.
    InstantiationMismatch { header: usize, passed: usize },
}

/// Why a record could not be transcribed.
#[derive(Debug)]
pub enum ProbeError {
    /// `inner` happened while doing what `context` describes.
    Context { context: &'static str, inner: Box<ProbeError> },
    /// A value that has to be there is missing.
    MissingValue(&'static str),
    /// An arena file is malformed.
    ArenaError(ArenaError),
    /// A name is not a number.
    ParseIntError(IntError),
    /// The operating system refused, for the reason given.
    IoError(String),
    /// An op could not be serialized, for the reason given.
    SerializeError(String),
    /// The record lacks what every record has.
    UnreachableCode,
}

/// The error `inner` under the heading `context`.
pub open spec fn in_context(context: &'static str, inner: ProbeError) -> ProbeError {
    ProbeError::Context { context, inner: Box::new(inner) }
}

/// A result whose error, if any, stands under the heading `context`.
pub open spec fn with_context<T>(res: Result<T, ProbeError>, context: &'static str) -> Result<
    T,
    ProbeError,
> {
    match res {
        Ok(value) => Ok(value),
        Err(inner) => Err(in_context(context, inner)),
    }
}

/// Puts the error of `res`, if any, under the heading `context`.
pub fn wrap_err<T>(res: Result<T, ProbeError>, context: &'static str) -> (out: Result<
    T,
    ProbeError,
>)
    ensures
        out == with_context(res, context),
{
    match res {
        Ok(value) => Ok(value),
        Err(inner) => Err(ProbeError::Context { context, inner: Box::new(inner) }),
    }
}

/// The failure of an operating system call, under the heading `context`.
pub open spec fn io_failure(context: &'static str, reason: String) -> ProbeError {
    in_context(context, ProbeError::IoError(reason))
}

/// Puts the reason the operating system gave under the heading `context`.
pub fn io_err(context: &'static str, reason: String) -> (out: ProbeError)
    ensures
        out == io_failure(context, reason),
{
    ProbeError::Context { context, inner: Box::new(ProbeError::IoError(reason)) }
}

impl ArenaError {
    /// The text shown to a user.
    pub open spec fn text(self) -> Seq<char> {
        match self {
            ArenaError::BufferTooSmall { got, needed } => "Arena buffer too small, got "@
                + text::decimal(got as nat) + ", minimum size "@ + text::decimal(
                needed as nat,
            ),
            ArenaError::InvalidCapacity { expected, actual } => "Invalid arena capacity, expected "@
                + text::decimal(expected as nat) + ", got "@ + text::decimal(
                actual as nat,
            ),
            ArenaError::InvalidSize { size, capacity } => "Arena size "@ + text::decimal(
                size as nat,
            ) + " is greater than capacity "@ + text::decimal(capacity as nat),
            ArenaError::Misaligned { size, header_size, op_size } =>
            "Arena alignment error: arena size ("@ + text::decimal(size as nat)
                + ") minus header ("@ + text::decimal(header_size as nat)
                + ") isn't a multiple of op size ("@ + text::decimal(op_size as nat)
                + ")"@,
            ArenaError::InstantiationMismatch { header, passed } =>
            "Header contained Instantiation ID "@ + text::decimal(header as nat) + ", but "@
                + text::decimal(passed as nat) + " was indicated"@,
        }
    }

    /// Writes the error for a user.
    pub fn message(&self) -> (res: String)
        ensures
            res@ == self.text(),
    {
        let mut res = String::new();
        match *self {
            ArenaError::BufferTooSmall { got, needed } => {
                res.append("Arena buffer too small, got ");
                res.append(decimal_string(got).as_str());
                res.append(", minimum size ");
                res.append(decimal_string(needed).as_str());
            },
            ArenaError::InvalidCapacity { expected, actual } => {
                res.append("Invalid arena capacity, expected ");
                res.append(decimal_string(expected).as_str());
                res.append(", got ");
                res.append(decimal_string(actual).as_str());
            },
            ArenaError::InvalidSize { size, capacity } => {
                res.append("Arena size ");
                res.append(decimal_string(size).as_str());
                res.append(" is greater than capacity ");
                res.append(decimal_string(capacity).as_str());
            },
            ArenaError::Misaligned { size, header_size, op_size } => {
                res.append("Arena alignment error: arena size (");
                res.append(decimal_string(size).as_str());
                res.append(") minus header (");
                res.append(decimal_string(header_size).as_str());
                res.append(") isn't a multiple of op size (");
                res.append(decimal_string(op_size).as_str());
                res.append(")");
            },
            ArenaError::InstantiationMismatch { header, passed } => {
                res.append("Header contained Instantiation ID ");
                res.append(decimal_string(header).as_str());
                res.append(", but ");
                res.append(decimal_string(passed).as_str());
                res.append(" was indicated");
            },
        }
        assert(res@ =~= self.text());
        res
    }
}

/// A heading hides nothing: what is put under one keeps its cause and its reason, and a success is
/// passed on as it is.
pub proof fn law_context_keeps_cause<T>(
    value: T,
    inner: ProbeError,
    context: &'static str,
    reason: String,
)
    ensures
        with_context(Ok::<T, ProbeError>(value), context) == Ok::<T, ProbeError>(value),
        with_context(Err::<T, ProbeError>(inner), context) matches Err(
            ProbeError::Context { context: heading, inner: cause },
        ) && heading == context && *cause == inner,
        in_context(context, inner) matches ProbeError::Context { context: heading, inner: cause }
            && heading == context && *cause == inner,
        io_failure(context, reason) matches ProbeError::Context { context: heading, inner: cause }
            && heading == context && *cause == ProbeError::IoError(reason),
{
}

/// The message of an arena error names the numbers that do not fit, in decimal notation.
pub proof fn law_message_names_numbers(a: usize, b: usize, c: usize)
    ensures
        (ArenaError::BufferTooSmall { got: a, needed: b }).text() == "Arena buffer too small, got "@
            + text::decimal(a as nat) + ", minimum size "@ + text::decimal(b as nat),
        (ArenaError::InvalidCapacity { expected: a, actual: b }).text()
            == "Invalid arena capacity, expected "@ + text::decimal(a as nat) + ", got "@
            + text::decimal(b as nat),
        (ArenaError::InvalidSize { size: a, capacity: b }).text() == "Arena size "@
            + text::decimal(a as nat) + " is greater than capacity "@ + text::decimal(b as nat),
        (ArenaError::Misaligned { size: a, header_size: b, op_size: c }).text()
            == "Arena alignment error: arena size ("@ + text::decimal(a as nat)
            + ") minus header ("@ + text::decimal(b as nat) + ") isn't a multiple of op size ("@
            + text::decimal(c as nat) + ")"@,
        (ArenaError::InstantiationMismatch { header: a, passed: b }).text()
            == "Header contained Instantiation ID "@ + text::decimal(a as nat) + ", but "@
            + text::decimal(b as nat) + " was indicated"@,
{
}

} // verus!
