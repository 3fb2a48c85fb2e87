use execnode::codec::{
    decode, encode, CodecError, ExecError, ExecEvent, ExecFunction, ExecRequest, ExecResponse,
};

fn request(function: ExecFunction, a: u64, b: u64) -> ExecEvent {
    ExecEvent::Request(ExecRequest { function, args: (a, b) })
}

#[test]
fn request_encoding_is_textual() {
    let m = request(ExecFunction::Add, 4, 5);
    assert_eq!(encode(&m), b"req add 4 5".to_vec());
    let m = request(ExecFunction::Subtract, 10, 0);
    assert_eq!(encode(&m), b"req subtract 10 0".to_vec());
    let m = request(ExecFunction::Multiply, u64::MAX, 1);
    assert_eq!(
        encode(&m),
        b"req multiply 18446744073709551615 1".to_vec()
    );
}

#[test]
fn response_encoding_is_textual() {
    let ok = ExecEvent::Response(Ok(ExecResponse { result: 9 }));
    assert_eq!(encode(&ok), b"resp ok 9".to_vec());
    let err = ExecEvent::Response(Err(ExecError::DivisionByZero));
    assert_eq!(encode(&err), b"resp err division_by_zero".to_vec());
    let err = ExecEvent::Response(Err(ExecError::ArithmeticOverflow));
    assert_eq!(encode(&err), b"resp err overflow".to_vec());
    let err = ExecEvent::Response(Err(ExecError::ArithmeticUnderflow));
    assert_eq!(encode(&err), b"resp err underflow".to_vec());
}

#[test]
fn round_trip_recovers_every_message_shape() {
    let messages = vec![
        request(ExecFunction::Add, 0, 0),
        request(ExecFunction::Add, 4, 5),
        request(ExecFunction::Subtract, u64::MAX, u64::MAX),
        request(ExecFunction::Divide, 10, 0),
        request(ExecFunction::Multiply, 1_000_000_007, 99),
        ExecEvent::Response(Ok(ExecResponse { result: 0 })),
        ExecEvent::Response(Ok(ExecResponse { result: u64::MAX })),
        ExecEvent::Response(Err(ExecError::ArithmeticOverflow)),
        ExecEvent::Response(Err(ExecError::ArithmeticUnderflow)),
        ExecEvent::Response(Err(ExecError::DivisionByZero)),
    ];
    for m in messages {
        assert_eq!(decode(&encode(&m)), Ok(m));
    }
}

#[test]
fn malformed_bytes_yield_malformed_message() {
    let cases: Vec<&[u8]> = vec![
        b"",
        b" ",
        b"nonsense",
        b"req",
        b"req add",
        b"req add 4",
        b"req add 4 5 6",
        b"req frobnicate 4 5",
        b"req add four 5",
        b"req add 04 5",
        b"req add 4  5",
        b"req add 4 5 ",
        b" req add 4 5",
        b"resp",
        b"resp ok",
        b"resp ok x",
        b"resp ok 09",
        b"resp ok 18446744073709551616",
        b"resp err",
        b"resp err overflowed",
        b"resp maybe 9",
        b"REQ add 4 5",
    ];
    for bytes in cases {
        assert_eq!(decode(bytes), Err(CodecError::MalformedMessage));
    }
}

#[test]
fn decode_rejects_values_above_u64_max() {
    assert_eq!(decode(b"req add 18446744073709551615 0"), Ok(request(ExecFunction::Add, u64::MAX, 0)));
    assert_eq!(
        decode(b"req add 18446744073709551616 0"),
        Err(CodecError::MalformedMessage)
    );
}
