//! Protocol codec: the wire message shapes and their textual encoding.
//!
//! A message travels as one line of space-separated ASCII tokens, chosen for
//! human inspection over wire compactness:
//!
//! - `req <operation> <a> <b>` — a computation request;
//! - `resp ok <result>` — a successful computation response;
//! - `resp err <error>` — a response carrying a typed execution error.
//!
//! Numbers are canonical decimal (no leading zeros). The leading tag makes
//! the format forward-extensible: a decoder rejects an unknown tag or
//! operation name explicitly with `MalformedMessage` instead of guessing, so
//! new tags and operation names can be added without breaking the decoding of
//! the messages that already exist.

use vstd::prelude::*;

use crate::bytes::{
    bytes_eq, dec_digits, digits_value, lemma_dec_digits_props, lemma_join_split,
    lemma_split_join_tokens, lemma_split_len, no_space, parse_canonical_u64, sp, spec_join,
    spec_split, split_bytes, u64_to_dec,
};

verus! {

/// The arithmetic operation a request asks for.
#[derive(Debug, Clone, Copy, PartialEq, Eq)]
pub enum ExecFunction {
    Add,
    Subtract,
    Divide,
    Multiply,
}

/// A computation job: one operation and its two unsigned operands.
#[derive(Debug, Clone, Copy, PartialEq, Eq)]
pub struct ExecRequest {
    pub function: ExecFunction,
    pub args: (u64, u64),
}

/// The successful result of a computation.
#[derive(Debug, Clone, Copy, PartialEq, Eq)]
pub struct ExecResponse {
    pub result: u64,
}

/// A typed execution failure, carried back to the requester inside a
/// response so that failure is observable rather than silent.
#[derive(Debug, Clone, Copy, PartialEq, Eq)]
pub enum ExecError {
    ArithmeticOverflow,
    ArithmeticUnderflow,
    DivisionByZero,
}

/// The wire envelope: the only value ever placed on the broadcast topic.
#[derive(Debug, Clone, Copy, PartialEq, Eq)]
pub enum ExecEvent {
    Request(ExecRequest),
    Response(Result<ExecResponse, ExecError>),
}

/// Decoding failure: the bytes are not a well-formed encoded message.
#[derive(Debug, Clone, Copy, PartialEq, Eq)]
pub enum CodecError {
    MalformedMessage,
}

/// `b"req"`.
pub open spec fn tag_request() -> Seq<u8> {
    seq![114u8, 101, 113]
}

/// `b"resp"`.
pub open spec fn tag_response() -> Seq<u8> {
    seq![114u8, 101, 115, 112]
}

/// `b"ok"`.
pub open spec fn word_ok() -> Seq<u8> {
    seq![111u8, 107]
}

/// `b"err"`.
pub open spec fn word_err() -> Seq<u8> {
    seq![101u8, 114, 114]
}

/// The canonical wire name of an operation: `add`, `subtract`, `divide`,
/// `multiply`.
pub open spec fn op_name(f: ExecFunction) -> Seq<u8> {
    match f {
        ExecFunction::Add => seq![97u8, 100, 100],
        ExecFunction::Subtract => seq![115u8, 117, 98, 116, 114, 97, 99, 116],
        ExecFunction::Divide => seq![100u8, 105, 118, 105, 100, 101],
        ExecFunction::Multiply => seq![109u8, 117, 108, 116, 105, 112, 108, 121],
    }
}

/// The wire name of an execution error: `overflow`, `underflow`,
/// `division_by_zero`.
pub open spec fn err_name(e: ExecError) -> Seq<u8> {
    match e {
        ExecError::ArithmeticOverflow => seq![111u8, 118, 101, 114, 102, 108, 111, 119],
        ExecError::ArithmeticUnderflow => seq![117u8, 110, 100, 101, 114, 102, 108, 111, 119],
        ExecError::DivisionByZero => seq![
            100u8,
            105,
            118,
            105,
            115,
            105,
            111,
            110,
            95,
            98,
            121,
            95,
            122,
            101,
            114,
            111,
        ],
    }
}

/// The token sequence of a message, tag first.
pub open spec fn spec_tokens(m: ExecEvent) -> Seq<Seq<u8>> {
    match m {
        ExecEvent::Request(r) => seq![
            tag_request(),
            op_name(r.function),
            dec_digits(r.args.0 as nat),
            dec_digits(r.args.1 as nat),
        ],
        ExecEvent::Response(Ok(resp)) => seq![
            tag_response(),
            word_ok(),
            dec_digits(resp.result as nat),
        ],
        ExecEvent::Response(Err(e)) => seq![tag_response(), word_err(), err_name(e)],
    }
}

/// The wire bytes of a message: its tokens joined by single spaces.
pub open spec fn spec_encode(m: ExecEvent) -> Seq<u8> {
    spec_join(spec_tokens(m))
}

pub proof fn lemma_names_no_space()
    ensures
        no_space(tag_request()),
        no_space(tag_response()),
        no_space(word_ok()),
        no_space(word_err()),
        forall|f: ExecFunction| no_space(#[trigger] op_name(f)),
        forall|e: ExecError| no_space(#[trigger] err_name(e)),
{
    assert forall|f: ExecFunction| no_space(#[trigger] op_name(f)) by {
        match f {
            ExecFunction::Add => assert(no_space(op_name(f))),
            ExecFunction::Subtract => assert(no_space(op_name(f))),
            ExecFunction::Divide => assert(no_space(op_name(f))),
            ExecFunction::Multiply => assert(no_space(op_name(f))),
        }
    }
    assert forall|e: ExecError| no_space(#[trigger] err_name(e)) by {
        match e {
            ExecError::ArithmeticOverflow => assert(no_space(err_name(e))),
            ExecError::ArithmeticUnderflow => assert(no_space(err_name(e))),
            ExecError::DivisionByZero => assert(no_space(err_name(e))),
        }
    }
}

/// Every token of every message is free of separators, so a message's
/// encoding splits back into exactly its tokens.
pub proof fn lemma_split_encode(m: ExecEvent)
    ensures
        spec_split(spec_encode(m)) == spec_tokens(m),
{
    lemma_names_no_space();
    let ts = spec_tokens(m);
    match m {
        ExecEvent::Request(r) => {
            lemma_dec_digits_props(r.args.0 as nat);
            lemma_dec_digits_props(r.args.1 as nat);
            assert(forall|i: int| 0 <= i < ts.len() ==> no_space(#[trigger] ts[i]));
        },
        ExecEvent::Response(Ok(resp)) => {
            lemma_dec_digits_props(resp.result as nat);
            assert(forall|i: int| 0 <= i < ts.len() ==> no_space(#[trigger] ts[i]));
        },
        ExecEvent::Response(Err(e)) => {
            assert(forall|i: int| 0 <= i < ts.len() ==> no_space(#[trigger] ts[i]));
        },
    }
    lemma_split_join_tokens(ts);
}

/// Round-trip law, first half: no two distinct messages share an encoding.
pub proof fn lemma_encode_injective(m1: ExecEvent, m2: ExecEvent)
    requires
        spec_encode(m1) == spec_encode(m2),
    ensures
        m1 == m2,
{
    lemma_split_encode(m1);
    lemma_split_encode(m2);
    let t1 = spec_tokens(m1);
    let t2 = spec_tokens(m2);
    assert(t1 == t2);
    match (m1, m2) {
        (ExecEvent::Request(r1), ExecEvent::Request(r2)) => {
            assert(t1[1] == t2[1]);
            assert(op_name(r1.function) == op_name(r2.function));
            lemma_op_name_injective(r1.function, r2.function);
            assert(t1[2] == t2[2] && t1[3] == t2[3]);
            lemma_dec_digits_props(r1.args.0 as nat);
            lemma_dec_digits_props(r2.args.0 as nat);
            lemma_dec_digits_props(r1.args.1 as nat);
            lemma_dec_digits_props(r2.args.1 as nat);
            assert(digits_value(dec_digits(r1.args.0 as nat)) == r1.args.0);
            assert(r1.args.0 == r2.args.0 && r1.args.1 == r2.args.1);
            assert(r1.args =~= r2.args);
        },
        (ExecEvent::Response(Ok(a1)), ExecEvent::Response(Ok(a2))) => {
            assert(t1[2] == t2[2]);
            lemma_dec_digits_props(a1.result as nat);
            lemma_dec_digits_props(a2.result as nat);
            assert(a1.result == a2.result);
        },
        (ExecEvent::Response(Err(e1)), ExecEvent::Response(Err(e2))) => {
            assert(t1[2] == t2[2]);
            lemma_err_name_injective(e1, e2);
        },
        (ExecEvent::Request(r1), ExecEvent::Response(q2)) => {
            assert(t1.len() == 4 && t2.len() == 3);
        },
        (ExecEvent::Response(q1), ExecEvent::Request(r2)) => {
            assert(t1.len() == 3 && t2.len() == 4);
        },
        (ExecEvent::Response(Ok(a1)), ExecEvent::Response(Err(e2))) => {
            assert(t1[1] == t2[1]);
            assert(word_ok().len() == 2 && word_err().len() == 3);
        },
        (ExecEvent::Response(Err(e1)), ExecEvent::Response(Ok(a2))) => {
            assert(t1[1] == t2[1]);
            assert(word_ok().len() == 2 && word_err().len() == 3);
        },
    }
}

proof fn lemma_op_name_injective(f1: ExecFunction, f2: ExecFunction)
    requires
        op_name(f1) == op_name(f2),
    ensures
        f1 == f2,
{
    if f1 != f2 {
        assert(op_name(f1)[0] == op_name(f2)[0]);
        assert(op_name(f1).len() == op_name(f2).len());
        assert(false);
    }
}

proof fn lemma_err_name_injective(e1: ExecError, e2: ExecError)
    requires
        err_name(e1) == err_name(e2),
    ensures
        e1 == e2,
{
    if e1 != e2 {
        assert(err_name(e1).len() == err_name(e2).len());
        assert(false);
    }
}

/// Round-trip law, stated over the encoding and decoding contracts: any
/// result that meets `decode`'s postcondition on the encoding of `m` is
/// exactly `Ok(m)`. With `encode`'s and `decode`'s postconditions this gives
/// `decode(encode(m)) == Ok(m)` for every constructible message.
pub proof fn lemma_round_trip(
    m: ExecEvent,
    encoded: Seq<u8>,
    decoded: Result<ExecEvent, CodecError>,
)
    requires
        encoded == spec_encode(m),
        decoded matches Ok(m2) ==> encoded == spec_encode(m2),
        decoded is Err ==> forall|m3: ExecEvent| encoded != spec_encode(m3),
    ensures
        decoded == Ok::<ExecEvent, CodecError>(m),
{
    match decoded {
        Ok(m2) => {
            lemma_encode_injective(m, m2);
        },
        Err(e) => {
            assert(encoded != spec_encode(m));
            assert(false);
        },
    }
}

fn tag_request_vec() -> (r: Vec<u8>)
    ensures
        r@ == tag_request(),
{
    let mut v: Vec<u8> = Vec::new();
    v.push(114);
    v.push(101);
    v.push(113);
    proof {
        assert(v@ =~= tag_request());
    }
    v
}

fn tag_response_vec() -> (r: Vec<u8>)
    ensures
        r@ == tag_response(),
{
    let mut v: Vec<u8> = Vec::new();
    v.push(114);
    v.push(101);
    v.push(115);
    v.push(112);
    proof {
        assert(v@ =~= tag_response());
    }
    v
}

fn word_ok_vec() -> (r: Vec<u8>)
    ensures
        r@ == word_ok(),
{
    let mut v: Vec<u8> = Vec::new();
    v.push(111);
    v.push(107);
    proof {
        assert(v@ =~= word_ok());
    }
    v
}

fn word_err_vec() -> (r: Vec<u8>)
    ensures
        r@ == word_err(),
{
    let mut v: Vec<u8> = Vec::new();
    v.push(101);
    v.push(114);
    v.push(114);
    proof {
        assert(v@ =~= word_err());
    }
    v
}

/// The canonical operation name as owned bytes.
pub fn op_name_vec(f: ExecFunction) -> (r: Vec<u8>)
    ensures
        r@ == op_name(f),
{
    let mut v: Vec<u8> = Vec::new();
    match f {
        ExecFunction::Add => {
            v.push(97);
            v.push(100);
            v.push(100);
        },
        ExecFunction::Subtract => {
            v.push(115);
            v.push(117);
            v.push(98);
            v.push(116);
            v.push(114);
            v.push(97);
            v.push(99);
            v.push(116);
        },
        ExecFunction::Divide => {
            v.push(100);
            v.push(105);
            v.push(118);
            v.push(105);
            v.push(100);
            v.push(101);
        },
        ExecFunction::Multiply => {
            v.push(109);
            v.push(117);
            v.push(108);
            v.push(116);
            v.push(105);
            v.push(112);
            v.push(108);
            v.push(121);
        },
    }
    proof {
        assert(v@ =~= op_name(f));
    }
    v
}

/// The wire error name as owned bytes.
pub fn err_name_vec(e: ExecError) -> (r: Vec<u8>)
    ensures
        r@ == err_name(e),
{
    let mut v: Vec<u8> = Vec::new();
    match e {
        ExecError::ArithmeticOverflow => {
            v.push(111);
            v.push(118);
            v.push(101);
            v.push(114);
            v.push(102);
            v.push(108);
            v.push(111);
            v.push(119);
        },
        ExecError::ArithmeticUnderflow => {
            v.push(117);
            v.push(110);
            v.push(100);
            v.push(101);
            v.push(114);
            v.push(102);
            v.push(108);
            v.push(111);
            v.push(119);
        },
        ExecError::DivisionByZero => {
            v.push(100);
            v.push(105);
            v.push(118);
            v.push(105);
            v.push(115);
            v.push(105);
            v.push(111);
            v.push(110);
            v.push(95);
            v.push(98);
            v.push(121);
            v.push(95);
            v.push(122);
            v.push(101);
            v.push(114);
            v.push(111);
        },
    }
    proof {
        assert(v@ =~= err_name(e));
    }
    v
}

/// Encodes a message for the wire. Total: every well-formed message has an
/// encoding, and it is exactly `spec_encode`.
pub fn encode(m: &ExecEvent) -> (r: Vec<u8>)
    ensures
        r@ == spec_encode(*m),
{
    match m {
        ExecEvent::Request(req) => {
            let mut out = tag_request_vec();
            out.push(32);
            let mut t1 = op_name_vec(req.function);
            out.append(&mut t1);
            out.push(32);
            let mut t2 = u64_to_dec(req.args.0);
            out.append(&mut t2);
            out.push(32);
            let mut t3 = u64_to_dec(req.args.1);
            out.append(&mut t3);
            proof {
                crate::bytes::lemma_join4(
                    tag_request(),
                    op_name(req.function),
                    dec_digits(req.args.0 as nat),
                    dec_digits(req.args.1 as nat),
                );
                assert(out@ =~= tag_request() + seq![sp()] + op_name(req.function) + seq![sp()]
                    + dec_digits(req.args.0 as nat) + seq![sp()] + dec_digits(req.args.1 as nat));
            }
            out
        },
        ExecEvent::Response(res) => {
            let mut out = tag_response_vec();
            out.push(32);
            match res {
                Ok(resp) => {
                    let mut t1 = word_ok_vec();
                    out.append(&mut t1);
                    out.push(32);
                    let mut t2 = u64_to_dec(resp.result);
                    out.append(&mut t2);
                    proof {
                        crate::bytes::lemma_join3(
                            tag_response(),
                            word_ok(),
                            dec_digits(resp.result as nat),
                        );
                        assert(out@ =~= tag_response() + seq![sp()] + word_ok() + seq![sp()]
                            + dec_digits(resp.result as nat));
                    }
                },
                Err(e) => {
                    let mut t1 = word_err_vec();
                    out.append(&mut t1);
                    out.push(32);
                    let mut t2 = err_name_vec(*e);
                    out.append(&mut t2);
                    proof {
                        crate::bytes::lemma_join3(tag_response(), word_err(), err_name(*e));
                        assert(out@ =~= tag_response() + seq![sp()] + word_err() + seq![sp()]
                            + err_name(*e));
                    }
                },
            }
            out
        },
    }
}

/// Recognizes a canonical operation name.
fn match_op(tok: &[u8]) -> (r: Option<ExecFunction>)
    ensures
        r matches Some(f) ==> tok@ == op_name(f),
        r is None ==> forall|f: ExecFunction| tok@ != op_name(f),
{
    let add = op_name_vec(ExecFunction::Add);
    let sub = op_name_vec(ExecFunction::Subtract);
    let div = op_name_vec(ExecFunction::Divide);
    let mul = op_name_vec(ExecFunction::Multiply);
    if bytes_eq(tok, add.as_slice()) {
        Some(ExecFunction::Add)
    } else if bytes_eq(tok, sub.as_slice()) {
        Some(ExecFunction::Subtract)
    } else if bytes_eq(tok, div.as_slice()) {
        Some(ExecFunction::Divide)
    } else if bytes_eq(tok, mul.as_slice()) {
        Some(ExecFunction::Multiply)
    } else {
        proof {
            assert forall|f: ExecFunction| tok@ != op_name(f) by {
                match f {
                    ExecFunction::Add => assert(tok@ != op_name(f)),
                    ExecFunction::Subtract => assert(tok@ != op_name(f)),
                    ExecFunction::Divide => assert(tok@ != op_name(f)),
                    ExecFunction::Multiply => assert(tok@ != op_name(f)),
                }
            }
        }
        None
    }
}

/// Recognizes a wire error name.
fn match_err(tok: &[u8]) -> (r: Option<ExecError>)
    ensures
        r matches Some(e) ==> tok@ == err_name(e),
        r is None ==> forall|e: ExecError| tok@ != err_name(e),
{
    let ovf = err_name_vec(ExecError::ArithmeticOverflow);
    let unf = err_name_vec(ExecError::ArithmeticUnderflow);
    let dbz = err_name_vec(ExecError::DivisionByZero);
    if bytes_eq(tok, ovf.as_slice()) {
        Some(ExecError::ArithmeticOverflow)
    } else if bytes_eq(tok, unf.as_slice()) {
        Some(ExecError::ArithmeticUnderflow)
    } else if bytes_eq(tok, dbz.as_slice()) {
        Some(ExecError::DivisionByZero)
    } else {
        proof {
            assert forall|e: ExecError| tok@ != err_name(e) by {
                match e {
                    ExecError::ArithmeticOverflow => assert(tok@ != err_name(e)),
                    ExecError::ArithmeticUnderflow => assert(tok@ != err_name(e)),
                    ExecError::DivisionByZero => assert(tok@ != err_name(e)),
                }
            }
        }
        None
    }
}

/// Decodes wire bytes. Succeeds exactly on the canonical encoding of some
/// message and returns that message; anything else — truncated lines,
/// unknown tags or operation names, non-canonical numbers — is rejected as
/// `MalformedMessage`. Total: malformed bytes can never abort the caller.
pub fn decode(input: &[u8]) -> (r: Result<ExecEvent, CodecError>)
    ensures
        r matches Ok(m) ==> input@ == spec_encode(m),
        r matches Err(e) ==> e == CodecError::MalformedMessage && forall|m: ExecEvent|
            input@ != spec_encode(m),
{
    let toks = split_bytes(input);
    let ghost ts = spec_split(input@);
    proof {
        lemma_split_len(input@);
        lemma_join_split(input@);
    }
    if toks.len() == 4 {
        let tag = tag_request_vec();
        if !bytes_eq(toks[0].as_slice(), tag.as_slice()) {
            proof {
                assert forall|m: ExecEvent| input@ != spec_encode(m) by {
                    if input@ == spec_encode(m) {
                        lemma_split_encode(m);
                        match m {
                            ExecEvent::Request(rq) => {
                                assert(ts[0] == tag_request());
                            },
                            ExecEvent::Response(res) => {
                                assert(ts.len() == 3);
                            },
                        }
                    }
                }
            }
            return Err(CodecError::MalformedMessage);
        }
        let f = match match_op(toks[1].as_slice()) {
            Some(f) => f,
            None => {
                proof {
                    assert forall|m: ExecEvent| input@ != spec_encode(m) by {
                        if input@ == spec_encode(m) {
                            lemma_split_encode(m);
                            match m {
                                ExecEvent::Request(rq) => {
                                    assert(ts[1] == op_name(rq.function));
                                },
                                ExecEvent::Response(res) => {
                                    assert(ts.len() == 3);
                                },
                            }
                        }
                    }
                }
                return Err(CodecError::MalformedMessage);
            },
        };
        let a = match parse_canonical_u64(toks[2].as_slice()) {
            Some(a) => a,
            None => {
                proof {
                    assert forall|m: ExecEvent| input@ != spec_encode(m) by {
                        if input@ == spec_encode(m) {
                            lemma_split_encode(m);
                            match m {
                                ExecEvent::Request(rq) => {
                                    assert(ts[2] == dec_digits(rq.args.0 as nat));
                                },
                                ExecEvent::Response(res) => {
                                    assert(ts.len() == 3);
                                },
                            }
                        }
                    }
                }
                return Err(CodecError::MalformedMessage);
            },
        };
        let b = match parse_canonical_u64(toks[3].as_slice()) {
            Some(b) => b,
            None => {
                proof {
                    assert forall|m: ExecEvent| input@ != spec_encode(m) by {
                        if input@ == spec_encode(m) {
                            lemma_split_encode(m);
                            match m {
                                ExecEvent::Request(rq) => {
                                    assert(ts[3] == dec_digits(rq.args.1 as nat));
                                },
                                ExecEvent::Response(res) => {
                                    assert(ts.len() == 3);
                                },
                            }
                        }
                    }
                }
                return Err(CodecError::MalformedMessage);
            },
        };
        let m = ExecEvent::Request(ExecRequest { function: f, args: (a, b) });
        proof {
            assert(ts =~~= spec_tokens(m));
            lemma_split_encode(m);
            crate::bytes::lemma_split_injective(input@, spec_encode(m));
        }
        Ok(m)
    } else if toks.len() == 3 {
        let tag = tag_response_vec();
        if !bytes_eq(toks[0].as_slice(), tag.as_slice()) {
            proof {
                assert forall|m: ExecEvent| input@ != spec_encode(m) by {
                    if input@ == spec_encode(m) {
                        lemma_split_encode(m);
                        match m {
                            ExecEvent::Request(rq) => {
                                assert(ts.len() == 4);
                            },
                            ExecEvent::Response(res) => {
                                assert(ts[0] == tag_response());
                            },
                        }
                    }
                }
            }
            return Err(CodecError::MalformedMessage);
        }
        let okw = word_ok_vec();
        let errw = word_err_vec();
        if bytes_eq(toks[1].as_slice(), okw.as_slice()) {
            match parse_canonical_u64(toks[2].as_slice()) {
                Some(v) => {
                    let m = ExecEvent::Response(Ok(ExecResponse { result: v }));
                    proof {
                        assert(ts =~~= spec_tokens(m));
                        lemma_split_encode(m);
                        crate::bytes::lemma_split_injective(input@, spec_encode(m));
                    }
                    Ok(m)
                },
                None => {
                    proof {
                        assert forall|m: ExecEvent| input@ != spec_encode(m) by {
                            if input@ == spec_encode(m) {
                                lemma_split_encode(m);
                                match m {
                                    ExecEvent::Request(rq) => {
                                        assert(ts.len() == 4);
                                    },
                                    ExecEvent::Response(Ok(resp)) => {
                                        assert(ts[2] == dec_digits(resp.result as nat));
                                    },
                                    ExecEvent::Response(Err(e)) => {
                                        assert(ts[1] == word_err());
                                        assert(word_ok().len() == 2 && word_err().len() == 3);
                                    },
                                }
                            }
                        }
                    }
                    Err(CodecError::MalformedMessage)
                },
            }
        } else if bytes_eq(toks[1].as_slice(), errw.as_slice()) {
            match match_err(toks[2].as_slice()) {
                Some(e) => {
                    let m = ExecEvent::Response(Err(e));
                    proof {
                        assert(ts =~~= spec_tokens(m));
                        lemma_split_encode(m);
                        crate::bytes::lemma_split_injective(input@, spec_encode(m));
                    }
                    Ok(m)
                },
                None => {
                    proof {
                        assert forall|m: ExecEvent| input@ != spec_encode(m) by {
                            if input@ == spec_encode(m) {
                                lemma_split_encode(m);
                                match m {
                                    ExecEvent::Request(rq) => {
                                        assert(ts.len() == 4);
                                    },
                                    ExecEvent::Response(Ok(resp)) => {
                                        assert(ts[1] == word_ok());
                                        assert(word_ok().len() == 2 && word_err().len() == 3);
                                    },
                                    ExecEvent::Response(Err(e)) => {
                                        assert(ts[2] == err_name(e));
                                    },
                                }
                            }
                        }
                    }
                    Err(CodecError::MalformedMessage)
                },
            }
        } else {
            proof {
                assert forall|m: ExecEvent| input@ != spec_encode(m) by {
                    if input@ == spec_encode(m) {
                        lemma_split_encode(m);
                        match m {
                            ExecEvent::Request(rq) => {
                                assert(ts.len() == 4);
                            },
                            ExecEvent::Response(Ok(resp)) => {
                                assert(ts[1] == word_ok());
                            },
                            ExecEvent::Response(Err(e)) => {
                                assert(ts[1] == word_err());
                            },
                        }
                    }
                }
            }
            Err(CodecError::MalformedMessage)
        }
    } else {
        proof {
            assert forall|m: ExecEvent| input@ != spec_encode(m) by {
                if input@ == spec_encode(m) {
                    lemma_split_encode(m);
                    match m {
                        ExecEvent::Request(rq) => {
                            assert(ts.len() == 4);
                        },
                        ExecEvent::Response(res) => {
                            assert(ts.len() == 3);
                        },
                    }
                }
            }
        }
        Err(CodecError::MalformedMessage)
    }
}

} // verus!
