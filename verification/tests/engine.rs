use execnode::codec::{ExecError, ExecFunction, ExecRequest, ExecResponse};
use execnode::engine::execute;

fn req(function: ExecFunction, a: u64, b: u64) -> ExecRequest {
    ExecRequest { function, args: (a, b) }
}

#[test]
fn add_computes_sum() {
    assert_eq!(
        execute(&req(ExecFunction::Add, 4, 5)),
        Ok(ExecResponse { result: 9 })
    );
}

#[test]
fn add_overflow_is_reported() {
    assert_eq!(
        execute(&req(ExecFunction::Add, u64::MAX, 1)),
        Err(ExecError::ArithmeticOverflow)
    );
    assert_eq!(
        execute(&req(ExecFunction::Add, u64::MAX, 0)),
        Ok(ExecResponse { result: u64::MAX })
    );
}

#[test]
fn subtract_computes_difference() {
    assert_eq!(
        execute(&req(ExecFunction::Subtract, 10, 3)),
        Ok(ExecResponse { result: 7 })
    );
    assert_eq!(
        execute(&req(ExecFunction::Subtract, 3, 3)),
        Ok(ExecResponse { result: 0 })
    );
}

#[test]
fn subtract_underflow_iff_subtrahend_larger() {
    assert_eq!(
        execute(&req(ExecFunction::Subtract, 3, 4)),
        Err(ExecError::ArithmeticUnderflow)
    );
    assert_eq!(
        execute(&req(ExecFunction::Subtract, 0, u64::MAX)),
        Err(ExecError::ArithmeticUnderflow)
    );
}

#[test]
fn multiply_computes_product() {
    assert_eq!(
        execute(&req(ExecFunction::Multiply, 6, 7)),
        Ok(ExecResponse { result: 42 })
    );
}

#[test]
fn multiply_overflow_is_reported() {
    assert_eq!(
        execute(&req(ExecFunction::Multiply, u64::MAX, 2)),
        Err(ExecError::ArithmeticOverflow)
    );
    assert_eq!(
        execute(&req(ExecFunction::Multiply, u64::MAX, 1)),
        Ok(ExecResponse { result: u64::MAX })
    );
}

#[test]
fn divide_uses_floor_semantics() {
    assert_eq!(
        execute(&req(ExecFunction::Divide, 10, 3)),
        Ok(ExecResponse { result: 3 })
    );
    assert_eq!(
        execute(&req(ExecFunction::Divide, 0, 5)),
        Ok(ExecResponse { result: 0 })
    );
}

#[test]
fn divide_by_zero_always_fails() {
    assert_eq!(
        execute(&req(ExecFunction::Divide, 10, 0)),
        Err(ExecError::DivisionByZero)
    );
    assert_eq!(
        execute(&req(ExecFunction::Divide, 0, 0)),
        Err(ExecError::DivisionByZero)
    );
    assert_eq!(
        execute(&req(ExecFunction::Divide, u64::MAX, 0)),
        Err(ExecError::DivisionByZero)
    );
}

#[test]
fn execute_is_deterministic() {
    let r = req(ExecFunction::Multiply, 123_456_789, 97);
    assert_eq!(execute(&r), execute(&r));
    let d = req(ExecFunction::Divide, 144, 12);
    assert_eq!(execute(&d), Ok(ExecResponse { result: 12 }));
    assert_eq!(execute(&d), Ok(ExecResponse { result: 12 }));
}
