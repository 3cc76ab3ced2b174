//! Errors of the built-ins, and the diagnostic line that reports them.
use vstd::prelude::*;
use crate::bytes::append;

verus! {

/// Why a built-in could not do its work.
#[derive(Clone, Copy, Debug, PartialEq, Eq, Structural)]
pub enum BuiltinError {
    /// A flag letter that the built-in does not know.
    BadOption(u8),
    /// A required operand is missing.
    MissingOperand,
    /// More operands than the built-in takes.
    TooManyArguments,
    /// An operand that should be a decimal number is not one.
    NotNumeric,
    /// The input ended before any byte was read.
    NoInput,
    /// A descriptor could not be duplicated; the error number the system gave.
    Descriptor(i32),
}

pub open spec fn message_of(e: BuiltinError) -> Seq<u8> {
    match e {
        BuiltinError::BadOption(b) => seq![0x69u8, 0x6Eu8, 0x76u8, 0x61u8, 0x6Cu8, 0x69u8, 0x64u8, 0x20u8, 0x6Fu8, 0x70u8, 0x74u8, 0x69u8, 0x6Fu8, 0x6Eu8, 0x3Au8, 0x20u8, 0x2Du8, b],
        BuiltinError::MissingOperand => seq![0x6Du8, 0x69u8, 0x73u8, 0x73u8, 0x69u8, 0x6Eu8, 0x67u8, 0x20u8, 0x6Fu8, 0x70u8, 0x65u8, 0x72u8, 0x61u8, 0x6Eu8, 0x64u8],
        BuiltinError::TooManyArguments => seq![0x74u8, 0x6Fu8, 0x6Fu8, 0x20u8, 0x6Du8, 0x61u8, 0x6Eu8, 0x79u8, 0x20u8, 0x61u8, 0x72u8, 0x67u8, 0x75u8, 0x6Du8, 0x65u8, 0x6Eu8, 0x74u8, 0x73u8],
        BuiltinError::NotNumeric => seq![0x6Eu8, 0x75u8, 0x6Du8, 0x65u8, 0x72u8, 0x69u8, 0x63u8, 0x20u8, 0x61u8, 0x72u8, 0x67u8, 0x75u8, 0x6Du8, 0x65u8, 0x6Eu8, 0x74u8, 0x20u8, 0x72u8, 0x65u8, 0x71u8, 0x75u8, 0x69u8, 0x72u8, 0x65u8, 0x64u8],
        BuiltinError::NoInput => seq![0x65u8, 0x6Eu8, 0x64u8, 0x20u8, 0x6Fu8, 0x66u8, 0x20u8, 0x69u8, 0x6Eu8, 0x70u8, 0x75u8, 0x74u8],
        BuiltinError::Descriptor(_) => seq![0x63u8, 0x61u8, 0x6Eu8, 0x6Eu8, 0x6Fu8, 0x74u8, 0x20u8, 0x64u8, 0x75u8, 0x70u8, 0x6Cu8, 0x69u8, 0x63u8, 0x61u8, 0x74u8, 0x65u8, 0x20u8, 0x64u8, 0x65u8, 0x73u8, 0x63u8, 0x72u8, 0x69u8, 0x70u8, 0x74u8, 0x6Fu8, 0x72u8],
    }
}

/// The line `<program>: error: <message>` that reports an error.
pub open spec fn diagnostic_of(program: Seq<u8>, message: Seq<u8>) -> Seq<u8> {
    program + seq![0x3Au8, 0x20u8, 0x65u8, 0x72u8, 0x72u8, 0x6Fu8, 0x72u8, 0x3Au8, 0x20u8] + message + seq![0x0Au8]
}

impl BuiltinError {
    /// The text that describes this error.
    pub fn message(&self) -> (r: Vec<u8>)
        ensures
            r@ == message_of(*self),
    {
        let mut r: Vec<u8> = Vec::new();
        match self {
            BuiltinError::BadOption(b) => {
                append(&mut r, &[0x69u8, 0x6Eu8, 0x76u8, 0x61u8, 0x6Cu8, 0x69u8, 0x64u8, 0x20u8, 0x6Fu8, 0x70u8, 0x74u8, 0x69u8, 0x6Fu8, 0x6Eu8, 0x3Au8, 0x20u8, 0x2Du8]);
                r.push(*b);
            },
            BuiltinError::MissingOperand => {
                append(&mut r, &[0x6Du8, 0x69u8, 0x73u8, 0x73u8, 0x69u8, 0x6Eu8, 0x67u8, 0x20u8, 0x6Fu8, 0x70u8, 0x65u8, 0x72u8, 0x61u8, 0x6Eu8, 0x64u8]);
            },
            BuiltinError::TooManyArguments => {
                append(&mut r, &[0x74u8, 0x6Fu8, 0x6Fu8, 0x20u8, 0x6Du8, 0x61u8, 0x6Eu8, 0x79u8, 0x20u8, 0x61u8, 0x72u8, 0x67u8, 0x75u8, 0x6Du8, 0x65u8, 0x6Eu8, 0x74u8, 0x73u8]);
            },
            BuiltinError::NotNumeric => {
                append(&mut r, &[0x6Eu8, 0x75u8, 0x6Du8, 0x65u8, 0x72u8, 0x69u8, 0x63u8, 0x20u8, 0x61u8, 0x72u8, 0x67u8, 0x75u8, 0x6Du8, 0x65u8, 0x6Eu8, 0x74u8, 0x20u8, 0x72u8, 0x65u8, 0x71u8, 0x75u8, 0x69u8, 0x72u8, 0x65u8, 0x64u8]);
            },
            BuiltinError::NoInput => {
                append(&mut r, &[0x65u8, 0x6Eu8, 0x64u8, 0x20u8, 0x6Fu8, 0x66u8, 0x20u8, 0x69u8, 0x6Eu8, 0x70u8, 0x75u8, 0x74u8]);
            },
            BuiltinError::Descriptor(_) => {
                append(&mut r, &[0x63u8, 0x61u8, 0x6Eu8, 0x6Eu8, 0x6Fu8, 0x74u8, 0x20u8, 0x64u8, 0x75u8, 0x70u8, 0x6Cu8, 0x69u8, 0x63u8, 0x61u8, 0x74u8, 0x65u8, 0x20u8, 0x64u8, 0x65u8, 0x73u8, 0x63u8, 0x72u8, 0x69u8, 0x70u8, 0x74u8, 0x6Fu8, 0x72u8]);
            },
        }
        assert(r@ =~= message_of(*self));
        r
    }
}

/// The diagnostic line `<program>: error: <message>`, newline included.
pub fn diagnostic(program: &[u8], message: &[u8]) -> (r: Vec<u8>)
    ensures
        r@ == diagnostic_of(program@, message@),
{
    let mut r: Vec<u8> = Vec::new();
    append(&mut r, program);
    append(&mut r, &[0x3Au8, 0x20u8, 0x65u8, 0x72u8, 0x72u8, 0x6Fu8, 0x72u8, 0x3Au8, 0x20u8]);
    append(&mut r, message);
    r.push(0x0Au8);
    assert(r@ =~= diagnostic_of(program@, message@));
    r
}

} // verus!
