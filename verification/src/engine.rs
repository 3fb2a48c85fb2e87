//! Exec engine: the pure arithmetic at the heart of the broadcast compute
//! protocol. Every edge case of the unsigned domain is a typed error, never a
//! panic or a silent wraparound, so the outcome can be carried back to the
//! requester inside a response.

use vstd::prelude::*;

use crate::codec::{ExecError, ExecFunction, ExecRequest, ExecResponse};

verus! {

/// The mathematical meaning of one operation on two unsigned operands:
/// the exact result, or the typed error the unsigned 64-bit domain forces.
pub open spec fn spec_execute(f: ExecFunction, a: u64, b: u64) -> Result<u64, ExecError> {
    match f {
        ExecFunction::Add => if a + b <= u64::MAX {
            Ok((a + b) as u64)
        } else {
            Err(ExecError::ArithmeticOverflow)
        },
        ExecFunction::Subtract => if b <= a {
            Ok((a - b) as u64)
        } else {
            Err(ExecError::ArithmeticUnderflow)
        },
        ExecFunction::Multiply => if a * b <= u64::MAX {
            Ok((a * b) as u64)
        } else {
            Err(ExecError::ArithmeticOverflow)
        },
        ExecFunction::Divide => if b != 0 {
            Ok((a as int / b as int) as u64)
        } else {
            Err(ExecError::DivisionByZero)
        },
    }
}

/// A request's outcome as it is reported and placed on the wire.
pub open spec fn spec_outcome(req: ExecRequest) -> Result<ExecResponse, ExecError> {
    match spec_execute(req.function, req.args.0, req.args.1) {
        Ok(v) => Ok(ExecResponse { result: v }),
        Err(e) => Err(e),
    }
}

/// Executes a request. Pure and deterministic: the result is exactly
/// `spec_outcome(*req)`, a function of the request alone, for every input —
/// overflow, underflow and division by zero are reported as typed errors.
pub fn execute(req: &ExecRequest) -> (r: Result<ExecResponse, ExecError>)
    ensures
        r == spec_outcome(*req),
{
    let (a, b) = req.args;
    match req.function {
        ExecFunction::Add => {
            if b <= u64::MAX - a {
                Ok(ExecResponse { result: a + b })
            } else {
                Err(ExecError::ArithmeticOverflow)
            }
        },
        ExecFunction::Subtract => {
            if b <= a {
                Ok(ExecResponse { result: a - b })
            } else {
                Err(ExecError::ArithmeticUnderflow)
            }
        },
        ExecFunction::Multiply => {
            match a.checked_mul(b) {
                Some(v) => Ok(ExecResponse { result: v }),
                None => Err(ExecError::ArithmeticOverflow),
            }
        },
        ExecFunction::Divide => {
            if b != 0 {
                Ok(ExecResponse { result: a / b })
            } else {
                Err(ExecError::DivisionByZero)
            }
        },
    }
}

/// Division by zero always fails, with `DivisionByZero`, whatever the
/// dividend.
pub proof fn lemma_divide_by_zero(a: u64)
    ensures
        spec_execute(ExecFunction::Divide, a, 0) == Err::<u64, ExecError>(
            ExecError::DivisionByZero,
        ),
{
}

/// Subtraction fails, and fails with `ArithmeticUnderflow`, exactly when the
/// subtrahend exceeds the minuend.
pub proof fn lemma_subtract_underflow(a: u64, b: u64)
    ensures
        (spec_execute(ExecFunction::Subtract, a, b) == Err::<u64, ExecError>(
            ExecError::ArithmeticUnderflow,
        )) <==> b > a,
        b <= a ==> spec_execute(ExecFunction::Subtract, a, b) == Ok::<u64, ExecError>(
            (a - b) as u64,
        ),
{
}

} // verus!
