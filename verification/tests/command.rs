use execnode::codec::{ExecFunction, ExecRequest};
use execnode::command::{parse_command, CommandError};

fn ok(function: ExecFunction, a: u64, b: u64) -> Result<ExecRequest, CommandError> {
    Ok(ExecRequest { function, args: (a, b) })
}

#[test]
fn parses_long_operation_names() {
    assert_eq!(parse_command(b"add 4 5"), ok(ExecFunction::Add, 4, 5));
    assert_eq!(parse_command(b"subtract 10 3"), ok(ExecFunction::Subtract, 10, 3));
    assert_eq!(parse_command(b"divide 10 0"), ok(ExecFunction::Divide, 10, 0));
    assert_eq!(parse_command(b"multiply 6 7"), ok(ExecFunction::Multiply, 6, 7));
}

#[test]
fn parses_short_operation_names() {
    assert_eq!(parse_command(b"sub 10 3"), ok(ExecFunction::Subtract, 10, 3));
    assert_eq!(parse_command(b"div 10 2"), ok(ExecFunction::Divide, 10, 2));
    assert_eq!(parse_command(b"mult 6 7"), ok(ExecFunction::Multiply, 6, 7));
}

#[test]
fn operation_names_are_case_insensitive() {
    assert_eq!(parse_command(b"ADD 4 5"), ok(ExecFunction::Add, 4, 5));
    assert_eq!(parse_command(b"Div 10 2"), ok(ExecFunction::Divide, 10, 2));
    assert_eq!(parse_command(b"SuBtRaCt 9 9"), ok(ExecFunction::Subtract, 9, 9));
}

#[test]
fn unknown_operation_is_invalid_command() {
    assert_eq!(parse_command(b"frobnicate 4 5"), Err(CommandError::InvalidCommand));
    assert_eq!(parse_command(b""), Err(CommandError::InvalidCommand));
    assert_eq!(parse_command(b"   "), Err(CommandError::InvalidCommand));
}

#[test]
fn missing_operands_are_invalid_command() {
    assert_eq!(parse_command(b"add"), Err(CommandError::InvalidCommand));
    assert_eq!(parse_command(b"add 4"), Err(CommandError::InvalidCommand));
}

#[test]
fn bad_operands_are_invalid_operand() {
    assert_eq!(parse_command(b"add four 5"), Err(CommandError::InvalidOperand));
    assert_eq!(parse_command(b"add 4 -5"), Err(CommandError::InvalidOperand));
    assert_eq!(
        parse_command(b"add 18446744073709551616 0"),
        Err(CommandError::InvalidOperand)
    );
    // A doubled separator makes the middle token empty, as str::split does.
    assert_eq!(parse_command(b"add  4 5"), Err(CommandError::InvalidOperand));
}

#[test]
fn operand_leading_zeros_are_tolerated() {
    assert_eq!(parse_command(b"add 04 005"), ok(ExecFunction::Add, 4, 5));
    assert_eq!(parse_command(b"add 0 0"), ok(ExecFunction::Add, 0, 0));
}

#[test]
fn extra_tokens_are_ignored() {
    assert_eq!(parse_command(b"add 4 5 extra"), ok(ExecFunction::Add, 4, 5));
}

#[test]
fn largest_operands_parse() {
    assert_eq!(
        parse_command(b"add 18446744073709551615 18446744073709551615"),
        ok(ExecFunction::Add, u64::MAX, u64::MAX)
    );
}
