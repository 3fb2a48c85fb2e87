//! Local command parsing: one line of whitespace-separated tokens,
//! `<operation> <operand1> <operand2>`, turned into a computation request.
//! Operation names are case-insensitive and accept the short forms `sub`,
//! `div` and `mult`.

use vstd::prelude::*;

use crate::bytes::{
    all_digits, bytes_eq, digits_value, lemma_split_len, lower_bytes, parse_u64_digits,
    spec_lower, spec_split, split_bytes,
};
use crate::codec::{op_name, op_name_vec, ExecFunction, ExecRequest};

verus! {

/// Failure to turn a local input line into a request.
#[derive(Debug, Clone, Copy, PartialEq, Eq)]
pub enum CommandError {
    /// The first token names no known operation, or fewer than two operand
    /// tokens follow it.
    InvalidCommand,
    /// An operand token is not an unsigned 64-bit decimal number.
    InvalidOperand,
}

/// `b"sub"`.
pub open spec fn name_sub() -> Seq<u8> {
    seq![115u8, 117, 98]
}

/// `b"div"`.
pub open spec fn name_div() -> Seq<u8> {
    seq![100u8, 105, 118]
}

/// `b"mult"`.
pub open spec fn name_mult() -> Seq<u8> {
    seq![109u8, 117, 108, 116]
}

/// The operation named by a user token, compared case-insensitively against
/// the full operation names and their short forms.
pub open spec fn spec_parse_function(tok: Seq<u8>) -> Option<ExecFunction> {
    let low = spec_lower(tok);
    if low == op_name(ExecFunction::Add) {
        Some(ExecFunction::Add)
    } else if low == op_name(ExecFunction::Subtract) || low == name_sub() {
        Some(ExecFunction::Subtract)
    } else if low == op_name(ExecFunction::Divide) || low == name_div() {
        Some(ExecFunction::Divide)
    } else if low == op_name(ExecFunction::Multiply) || low == name_mult() {
        Some(ExecFunction::Multiply)
    } else {
        None
    }
}

/// The value of an operand token: a nonempty run of decimal digits whose
/// value fits in a `u64`. Leading zeros are tolerated here, unlike on the
/// wire.
pub open spec fn spec_parse_operand(tok: Seq<u8>) -> Option<u64> {
    if tok.len() >= 1 && all_digits(tok) && digits_value(tok) <= u64::MAX {
        Some(digits_value(tok) as u64)
    } else {
        None
    }
}

/// The meaning of a whole input line: the first token must name an
/// operation and at least two operand tokens must follow it; tokens beyond
/// the third are ignored.
pub open spec fn spec_parse_command(line: Seq<u8>) -> Result<ExecRequest, CommandError> {
    let toks = spec_split(line);
    match spec_parse_function(toks[0]) {
        None => Err(CommandError::InvalidCommand),
        Some(f) => if toks.len() < 3 {
            Err(CommandError::InvalidCommand)
        } else {
            match (spec_parse_operand(toks[1]), spec_parse_operand(toks[2])) {
                (Some(a), Some(b)) => Ok(ExecRequest { function: f, args: (a, b) }),
                _ => Err(CommandError::InvalidOperand),
            }
        },
    }
}

fn name_sub_vec() -> (r: Vec<u8>)
    ensures
        r@ == name_sub(),
{
    let mut v: Vec<u8> = Vec::new();
    v.push(115);
    v.push(117);
    v.push(98);
    proof {
        assert(v@ =~= name_sub());
    }
    v
}

fn name_div_vec() -> (r: Vec<u8>)
    ensures
        r@ == name_div(),
{
    let mut v: Vec<u8> = Vec::new();
    v.push(100);
    v.push(105);
    v.push(118);
    proof {
        assert(v@ =~= name_div());
    }
    v
}

fn name_mult_vec() -> (r: Vec<u8>)
    ensures
        r@ == name_mult(),
{
    let mut v: Vec<u8> = Vec::new();
    v.push(109);
    v.push(117);
    v.push(108);
    v.push(116);
    proof {
        assert(v@ =~= name_mult());
    }
    v
}

/// Recognizes an operation token, case-insensitively, long or short form.
pub fn parse_function(tok: &[u8]) -> (r: Option<ExecFunction>)
    ensures
        r == spec_parse_function(tok@),
{
    let low = lower_bytes(tok);
    let add = op_name_vec(ExecFunction::Add);
    let sub_long = op_name_vec(ExecFunction::Subtract);
    let sub_short = name_sub_vec();
    let div_long = op_name_vec(ExecFunction::Divide);
    let div_short = name_div_vec();
    let mul_long = op_name_vec(ExecFunction::Multiply);
    let mul_short = name_mult_vec();
    if bytes_eq(low.as_slice(), add.as_slice()) {
        Some(ExecFunction::Add)
    } else if bytes_eq(low.as_slice(), sub_long.as_slice()) || bytes_eq(
        low.as_slice(),
        sub_short.as_slice(),
    ) {
        Some(ExecFunction::Subtract)
    } else if bytes_eq(low.as_slice(), div_long.as_slice()) || bytes_eq(
        low.as_slice(),
        div_short.as_slice(),
    ) {
        Some(ExecFunction::Divide)
    } else if bytes_eq(low.as_slice(), mul_long.as_slice()) || bytes_eq(
        low.as_slice(),
        mul_short.as_slice(),
    ) {
        Some(ExecFunction::Multiply)
    } else {
        None
    }
}

/// Parses a local input line into a request; the result is exactly
/// `spec_parse_command(line@)`, so each error names precisely what was
/// wrong and success is owed on every well-formed command.
pub fn parse_command(line: &[u8]) -> (r: Result<ExecRequest, CommandError>)
    ensures
        r == spec_parse_command(line@),
{
    let toks = split_bytes(line);
    proof {
        lemma_split_len(line@);
    }
    let f = match parse_function(toks[0].as_slice()) {
        Some(f) => f,
        None => {
            return Err(CommandError::InvalidCommand);
        },
    };
    if toks.len() < 3 {
        return Err(CommandError::InvalidCommand);
    }
    let a = match parse_u64_digits(toks[1].as_slice()) {
        Some(a) => a,
        None => {
            return Err(CommandError::InvalidOperand);
        },
    };
    let b = match parse_u64_digits(toks[2].as_slice()) {
        Some(b) => b,
        None => {
            return Err(CommandError::InvalidOperand);
        },
    };
    Ok(ExecRequest { function: f, args: (a, b) })
}

} // verus!
