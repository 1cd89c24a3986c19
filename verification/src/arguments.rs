//! Typed command arguments: the request array, already framed and parsed,
//! is classified into one command with its arguments, or rejected with a
//! protocol error message.
use vstd::prelude::*;

use crate::database::Record;

use crate::resp::{clone_bytes, deep_views, Resp, RespVal};
use crate::text::{
    check_utf8, is_utf8, i64_dec, parse_u64_text, spec_idec, spec_parse_u64, spec_upper_seq,
    to_upper_bytes,
};

verus! {

/// Why a request array was rejected. `message` gives the reply text that
/// follows the `ERR ` prefix on the wire.
#[derive(Debug, Clone, Copy, PartialEq, Eq, Structural)]
pub enum ArgError {
    WrongNumberEcho,
    ArgMustBeBulk,
    KeyMustBeBulk,
    ArgNotUtf8,
    InvalidSecondsFormat,
    InvalidSecondsValue,
    ExpectedSeconds,
    InvalidMillisFormat,
    InvalidMillisValue,
    ExpectedMillis,
    UnknownArgument,
    ArgsMustBeBulk,
    UnknownCommand,
    ExpectedArgument,
    ConversionFailed,
    TooManyArguments,
    SyntaxError,
    ExpectedArray,
    ReplicaDirect,
    UnsupportedProtocol,
}

pub open spec fn spec_message(e: ArgError) -> Seq<u8> {
    match e {
        ArgError::WrongNumberEcho => seq![119u8, 114, 111, 110, 103, 32, 110, 117, 109, 98, 101, 114, 32, 111, 102, 32, 97, 114, 103, 117, 109, 101, 110, 116, 115, 32, 102, 111, 114, 32, 39, 101, 99, 104, 111, 39, 32, 99, 111, 109, 109, 97, 110, 100],
        ArgError::ArgMustBeBulk => seq![97u8, 114, 103, 117, 109, 101, 110, 116, 32, 109, 117, 115, 116, 32, 98, 101, 32, 97, 32, 98, 117, 108, 107, 32, 115, 116, 114, 105, 110, 103],
        ArgError::KeyMustBeBulk => seq![107u8, 101, 121, 32, 109, 117, 115, 116, 32, 98, 101, 32, 97, 32, 98, 117, 108, 107, 32, 115, 116, 114, 105, 110, 103],
        ArgError::ArgNotUtf8 => seq![97u8, 114, 103, 117, 109, 101, 110, 116, 32, 110, 111, 116, 32, 117, 116, 102, 56],
        ArgError::InvalidSecondsFormat => seq![105u8, 110, 118, 97, 108, 105, 100, 32, 115, 101, 99, 111, 110, 100, 115, 32, 102, 111, 114, 109, 97, 116],
        ArgError::InvalidSecondsValue => seq![105u8, 110, 118, 97, 108, 105, 100, 32, 115, 101, 99, 111, 110, 100, 115, 32, 118, 97, 108, 117, 101],
        ArgError::ExpectedSeconds => seq![101u8, 120, 112, 101, 99, 116, 101, 100, 32, 115, 101, 99, 111, 110, 100, 115, 32, 97, 102, 116, 101, 114, 32, 39, 69, 88, 39],
        ArgError::InvalidMillisFormat => seq![105u8, 110, 118, 97, 108, 105, 100, 32, 109, 105, 108, 108, 105, 115, 101, 99, 111, 110, 100, 115, 32, 102, 111, 114, 109, 97, 116],
        ArgError::InvalidMillisValue => seq![105u8, 110, 118, 97, 108, 105, 100, 32, 109, 105, 108, 108, 105, 115, 101, 99, 111, 110, 100, 115, 32, 118, 97, 108, 117, 101],
        ArgError::ExpectedMillis => seq![101u8, 120, 112, 101, 99, 116, 101, 100, 32, 109, 105, 108, 108, 105, 115, 101, 99, 111, 110, 100, 115, 32, 97, 102, 116, 101, 114, 32, 39, 80, 88, 39],
        ArgError::UnknownArgument => seq![117u8, 110, 107, 110, 111, 119, 110, 32, 111, 114, 32, 117, 110, 101, 120, 112, 101, 99, 116, 101, 100, 32, 97, 114, 103, 117, 109, 101, 110, 116],
        ArgError::ArgsMustBeBulk => seq![97u8, 114, 103, 117, 109, 101, 110, 116, 115, 32, 109, 117, 115, 116, 32, 98, 101, 32, 98, 117, 108, 107, 32, 115, 116, 114, 105, 110, 103, 115],
        ArgError::UnknownCommand => seq![117u8, 110, 107, 110, 111, 119, 110, 32, 111, 114, 32, 117, 110, 101, 120, 112, 101, 99, 116, 101, 100, 32, 99, 111, 109, 109, 97, 110, 100],
        ArgError::ExpectedArgument => seq![101u8, 120, 112, 101, 99, 116, 101, 100, 32, 97, 114, 103, 117, 109, 101, 110, 116],
        ArgError::ConversionFailed => seq![97u8, 114, 103, 117, 109, 101, 110, 116, 32, 99, 111, 110, 118, 101, 114, 115, 105, 111, 110, 32, 102, 97, 105, 108, 101, 100],
        ArgError::TooManyArguments => seq![116u8, 111, 111, 32, 109, 97, 110, 121, 32, 97, 114, 103, 117, 109, 101, 110, 116, 115],
        ArgError::SyntaxError => seq![115u8, 121, 110, 116, 97, 120, 32, 101, 114, 114, 111, 114],
        ArgError::ExpectedArray => seq![101u8, 120, 112, 101, 99, 116, 101, 100, 32, 97, 114, 114, 97, 121, 32, 111, 102, 32, 97, 114, 103, 115],
        ArgError::ReplicaDirect => seq![100u8, 105, 114, 101, 99, 116, 32, 109, 101, 115, 115, 97, 103, 105, 110, 103, 32, 116, 111, 32, 114, 101, 112, 108, 105, 99, 97, 32, 110, 111, 116, 32, 97, 108, 108, 111, 119, 101, 100],
        ArgError::UnsupportedProtocol => seq![117u8, 110, 115, 117, 112, 112, 111, 114, 116, 101, 100, 32, 112, 114, 111, 116, 111, 99, 111, 108, 32, 115, 101, 113, 117, 101, 110, 99, 101],
    }
}

impl ArgError {
    /// The reply text for this rejection.
    pub fn message(&self) -> (r: Vec<u8>)
        ensures
            r@ == spec_message(*self),
    {
        match *self {
            ArgError::WrongNumberEcho => {
                let m: Vec<u8> = vec![119u8, 114, 111, 110, 103, 32, 110, 117, 109, 98, 101, 114, 32, 111, 102, 32, 97, 114, 103, 117, 109, 101, 110, 116, 115, 32, 102, 111, 114, 32, 39, 101, 99, 104, 111, 39, 32, 99, 111, 109, 109, 97, 110, 100];
                proof {
                    assert(m@ =~= spec_message(ArgError::WrongNumberEcho));
                }
                m
            },
            ArgError::ArgMustBeBulk => {
                let m: Vec<u8> = vec![97u8, 114, 103, 117, 109, 101, 110, 116, 32, 109, 117, 115, 116, 32, 98, 101, 32, 97, 32, 98, 117, 108, 107, 32, 115, 116, 114, 105, 110, 103];
                proof {
                    assert(m@ =~= spec_message(ArgError::ArgMustBeBulk));
                }
                m
            },
            ArgError::KeyMustBeBulk => {
                let m: Vec<u8> = vec![107u8, 101, 121, 32, 109, 117, 115, 116, 32, 98, 101, 32, 97, 32, 98, 117, 108, 107, 32, 115, 116, 114, 105, 110, 103];
                proof {
                    assert(m@ =~= spec_message(ArgError::KeyMustBeBulk));
                }
                m
            },
            ArgError::ArgNotUtf8 => {
                let m: Vec<u8> = vec![97u8, 114, 103, 117, 109, 101, 110, 116, 32, 110, 111, 116, 32, 117, 116, 102, 56];
                proof {
                    assert(m@ =~= spec_message(ArgError::ArgNotUtf8));
                }
                m
            },
            ArgError::InvalidSecondsFormat => {
                let m: Vec<u8> = vec![105u8, 110, 118, 97, 108, 105, 100, 32, 115, 101, 99, 111, 110, 100, 115, 32, 102, 111, 114, 109, 97, 116];
                proof {
                    assert(m@ =~= spec_message(ArgError::InvalidSecondsFormat));
                }
                m
            },
            ArgError::InvalidSecondsValue => {
                let m: Vec<u8> = vec![105u8, 110, 118, 97, 108, 105, 100, 32, 115, 101, 99, 111, 110, 100, 115, 32, 118, 97, 108, 117, 101];
                proof {
                    assert(m@ =~= spec_message(ArgError::InvalidSecondsValue));
                }
                m
            },
            ArgError::ExpectedSeconds => {
                let m: Vec<u8> = vec![101u8, 120, 112, 101, 99, 116, 101, 100, 32, 115, 101, 99, 111, 110, 100, 115, 32, 97, 102, 116, 101, 114, 32, 39, 69, 88, 39];
                proof {
                    assert(m@ =~= spec_message(ArgError::ExpectedSeconds));
                }
                m
            },
            ArgError::InvalidMillisFormat => {
                let m: Vec<u8> = vec![105u8, 110, 118, 97, 108, 105, 100, 32, 109, 105, 108, 108, 105, 115, 101, 99, 111, 110, 100, 115, 32, 102, 111, 114, 109, 97, 116];
                proof {
                    assert(m@ =~= spec_message(ArgError::InvalidMillisFormat));
                }
                m
            },
            ArgError::InvalidMillisValue => {
                let m: Vec<u8> = vec![105u8, 110, 118, 97, 108, 105, 100, 32, 109, 105, 108, 108, 105, 115, 101, 99, 111, 110, 100, 115, 32, 118, 97, 108, 117, 101];
                proof {
                    assert(m@ =~= spec_message(ArgError::InvalidMillisValue));
                }
                m
            },
            ArgError::ExpectedMillis => {
                let m: Vec<u8> = vec![101u8, 120, 112, 101, 99, 116, 101, 100, 32, 109, 105, 108, 108, 105, 115, 101, 99, 111, 110, 100, 115, 32, 97, 102, 116, 101, 114, 32, 39, 80, 88, 39];
                proof {
                    assert(m@ =~= spec_message(ArgError::ExpectedMillis));
                }
                m
            },
            ArgError::UnknownArgument => {
                let m: Vec<u8> = vec![117u8, 110, 107, 110, 111, 119, 110, 32, 111, 114, 32, 117, 110, 101, 120, 112, 101, 99, 116, 101, 100, 32, 97, 114, 103, 117, 109, 101, 110, 116];
                proof {
                    assert(m@ =~= spec_message(ArgError::UnknownArgument));
                }
                m
            },
            ArgError::ArgsMustBeBulk => {
                let m: Vec<u8> = vec![97u8, 114, 103, 117, 109, 101, 110, 116, 115, 32, 109, 117, 115, 116, 32, 98, 101, 32, 98, 117, 108, 107, 32, 115, 116, 114, 105, 110, 103, 115];
                proof {
                    assert(m@ =~= spec_message(ArgError::ArgsMustBeBulk));
                }
                m
            },
            ArgError::UnknownCommand => {
                let m: Vec<u8> = vec![117u8, 110, 107, 110, 111, 119, 110, 32, 111, 114, 32, 117, 110, 101, 120, 112, 101, 99, 116, 101, 100, 32, 99, 111, 109, 109, 97, 110, 100];
                proof {
                    assert(m@ =~= spec_message(ArgError::UnknownCommand));
                }
                m
            },
            ArgError::ExpectedArgument => {
                let m: Vec<u8> = vec![101u8, 120, 112, 101, 99, 116, 101, 100, 32, 97, 114, 103, 117, 109, 101, 110, 116];
                proof {
                    assert(m@ =~= spec_message(ArgError::ExpectedArgument));
                }
                m
            },
            ArgError::ConversionFailed => {
                let m: Vec<u8> = vec![97u8, 114, 103, 117, 109, 101, 110, 116, 32, 99, 111, 110, 118, 101, 114, 115, 105, 111, 110, 32, 102, 97, 105, 108, 101, 100];
                proof {
                    assert(m@ =~= spec_message(ArgError::ConversionFailed));
                }
                m
            },
            ArgError::TooManyArguments => {
                let m: Vec<u8> = vec![116u8, 111, 111, 32, 109, 97, 110, 121, 32, 97, 114, 103, 117, 109, 101, 110, 116, 115];
                proof {
                    assert(m@ =~= spec_message(ArgError::TooManyArguments));
                }
                m
            },
            ArgError::SyntaxError => {
                let m: Vec<u8> = vec![115u8, 121, 110, 116, 97, 120, 32, 101, 114, 114, 111, 114];
                proof {
                    assert(m@ =~= spec_message(ArgError::SyntaxError));
                }
                m
            },
            ArgError::ExpectedArray => {
                let m: Vec<u8> = vec![101u8, 120, 112, 101, 99, 116, 101, 100, 32, 97, 114, 114, 97, 121, 32, 111, 102, 32, 97, 114, 103, 115];
                proof {
                    assert(m@ =~= spec_message(ArgError::ExpectedArray));
                }
                m
            },
            ArgError::ReplicaDirect => {
                let m: Vec<u8> = vec![100u8, 105, 114, 101, 99, 116, 32, 109, 101, 115, 115, 97, 103, 105, 110, 103, 32, 116, 111, 32, 114, 101, 112, 108, 105, 99, 97, 32, 110, 111, 116, 32, 97, 108, 108, 111, 119, 101, 100];
                proof {
                    assert(m@ =~= spec_message(ArgError::ReplicaDirect));
                }
                m
            },
            ArgError::UnsupportedProtocol => {
                let m: Vec<u8> = vec![117u8, 110, 115, 117, 112, 112, 111, 114, 116, 101, 100, 32, 112, 114, 111, 116, 111, 99, 111, 108, 32, 115, 101, 113, 117, 101, 110, 99, 101];
                proof {
                    assert(m@ =~= spec_message(ArgError::UnsupportedProtocol));
                }
                m
            },
        }
    }
}

/// The text a value stands for when a command argument is read as a string:
/// texts carry over, an integer gives its decimal form, null-like values
/// give the empty string, and aggregates have none.
pub open spec fn spec_resp_text(v: RespVal) -> Option<Seq<u8>> {
    match v {
        RespVal::SimpleString(s) => Option::Some(s),
        RespVal::SimpleError(s) => Option::Some(s),
        RespVal::Integer(i) => Option::Some(spec_idec(i)),
        RespVal::BulkString(b) => if is_utf8(b) {
            Option::Some(b)
        } else {
            Option::None
        },
        RespVal::BulkStringNull => Option::Some(Seq::<u8>::empty()),
        RespVal::ArrayNull => Option::Some(Seq::<u8>::empty()),
        RespVal::Null => Option::Some(Seq::<u8>::empty()),
        RespVal::Boolean(b) => if b {
            Option::Some(seq![116u8, 114, 117, 101])
        } else {
            Option::Some(seq![102u8, 97, 108, 115, 101])
        },
        RespVal::Double(d) => match d {
            crate::resp::DoubleVal::Inf => Option::Some(seq![105u8, 110, 102]),
            crate::resp::DoubleVal::NegInf => Option::Some(seq![45u8, 105, 110, 102]),
            crate::resp::DoubleVal::Nan => Option::Some(seq![78u8, 97, 78]),
            crate::resp::DoubleVal::Num(t) => Option::Some(t),
        },
        RespVal::VerbatimString(b) => if is_utf8(b) {
            Option::Some(b)
        } else {
            Option::None
        },
        _ => Option::None,
    }
}

/// The executable counterpart of `spec_resp_text`.
pub fn resp_to_text(resp: &Resp) -> (r: Option<Vec<u8>>)
    ensures
        match spec_resp_text(resp@) {
            Option::Some(t) => r matches Option::Some(v) && v@ == t,
            Option::None => r is None,
        },
{
    match resp {
        Resp::SimpleString(s) => Some(clone_bytes(s)),
        Resp::SimpleError(s) => Some(clone_bytes(s)),
        Resp::Integer(i) => Some(i64_dec(*i)),
        Resp::BulkString(b) => {
            if check_utf8(b.as_slice()) {
                Some(clone_bytes(b))
            } else {
                None
            }
        },
        Resp::BulkStringNull => Some(Vec::new()),
        Resp::ArrayNull => Some(Vec::new()),
        Resp::Null => Some(Vec::new()),
        Resp::Boolean(b) => {
            if *b {
                let v: Vec<u8> = vec![116u8, 114, 117, 101];
                proof {
                    assert(v@ =~= seq![116u8, 114, 117, 101]);
                }
                Some(v)
            } else {
                let v: Vec<u8> = vec![102u8, 97, 108, 115, 101];
                proof {
                    assert(v@ =~= seq![102u8, 97, 108, 115, 101]);
                }
                Some(v)
            }
        },
        Resp::Double(d) => match d {
            crate::resp::DoubleRepr::Inf => {
                let v: Vec<u8> = vec![105u8, 110, 102];
                proof {
                    assert(v@ =~= seq![105u8, 110, 102]);
                }
                Some(v)
            },
            crate::resp::DoubleRepr::NegInf => {
                let v: Vec<u8> = vec![45u8, 105, 110, 102];
                proof {
                    assert(v@ =~= seq![45u8, 105, 110, 102]);
                }
                Some(v)
            },
            crate::resp::DoubleRepr::Nan => {
                let v: Vec<u8> = vec![78u8, 97, 78];
                proof {
                    assert(v@ =~= seq![78u8, 97, 78]);
                }
                Some(v)
            },
            crate::resp::DoubleRepr::Num(t) => Some(clone_bytes(t)),
        },
        Resp::VerbatimString(b) => {
            if check_utf8(b.as_slice()) {
                Some(clone_bytes(b))
            } else {
                None
            }
        },
        _ => None,
    }
}

/// An expiry option of SET: a span in seconds or in milliseconds.
#[derive(Debug, Clone, Copy, PartialEq, Eq, Structural)]
pub enum Expiration {
    Seconds(u64),
    Milliseconds(u64),
}

impl Expiration {
    /// The span in milliseconds, saturating at the largest representable.
    pub open spec fn spec_millis(self) -> u64 {
        match self {
            Expiration::Seconds(s) => if s <= u64::MAX / 1000 {
                (s * 1000) as u64
            } else {
                u64::MAX
            },
            Expiration::Milliseconds(ms) => ms,
        }
    }

    pub fn as_duration(&self) -> (r: u64)
        ensures
            r == self.spec_millis(),
    {
        match *self {
            Expiration::Seconds(s) => {
                if s <= u64::MAX / 1000 {
                    s * 1000
                } else {
                    u64::MAX
                }
            },
            Expiration::Milliseconds(ms) => ms,
        }
    }
}

} // verus!

use crate::internals::{
    spec_parse_psync, spec_parse_replconf, PsyncArguments, PsyncVal, ReplconfArguments, ReplVal,
};

verus! {

/// The message of ECHO: any bulk string.
#[derive(Debug, PartialEq)]
pub struct EchoArguments {
    pub message: Resp,
}

impl View for EchoArguments {
    type V = RespVal;

    open spec fn view(&self) -> RespVal {
        self.message@
    }
}

pub open spec fn spec_parse_echo(vs: Seq<RespVal>, i: int) -> Result<RespVal, ArgError> {
    if i >= vs.len() {
        Result::Err(ArgError::WrongNumberEcho)
    } else {
        match vs[i] {
            RespVal::BulkString(_) => Result::Ok(vs[i]),
            _ => Result::Err(ArgError::ArgMustBeBulk),
        }
    }
}

impl EchoArguments {
    pub fn parse(args: &Vec<Resp>, start: usize) -> (r: Result<EchoArguments, ArgError>)
        ensures
            match spec_parse_echo(deep_views(args@), start as int) {
                Result::Ok(v) => r matches Result::Ok(ea) && ea@ == v,
                Result::Err(e) => r matches Result::Err(e2) && e2 == e,
            },
    {
        let ghost vs = deep_views(args@);
        if start >= args.len() {
            return Err(ArgError::WrongNumberEcho);
        }
        proof {
            assert(vs[start as int] == args@[start as int]@);
        }
        match &args[start] {
            Resp::BulkString(_) => Ok(EchoArguments { message: args[start].clone() }),
            _ => Err(ArgError::ArgMustBeBulk),
        }
    }
}

/// The key of GET: a bulk string.
#[derive(Debug, PartialEq)]
pub struct GetArguments {
    pub key: Vec<u8>,
}

impl View for GetArguments {
    type V = Seq<u8>;

    open spec fn view(&self) -> Seq<u8> {
        self.key@
    }
}

pub open spec fn spec_parse_get(vs: Seq<RespVal>, i: int) -> Result<Seq<u8>, ArgError> {
    if i < vs.len() {
        match vs[i] {
            RespVal::BulkString(b) => Result::Ok(b),
            _ => Result::Err(ArgError::ArgMustBeBulk),
        }
    } else {
        Result::Err(ArgError::ArgMustBeBulk)
    }
}

impl GetArguments {
    pub fn parse(args: &Vec<Resp>, start: usize) -> (r: Result<GetArguments, ArgError>)
        ensures
            match spec_parse_get(deep_views(args@), start as int) {
                Result::Ok(k) => r matches Result::Ok(ga) && ga@ == k,
                Result::Err(e) => r matches Result::Err(e2) && e2 == e,
            },
    {
        let ghost vs = deep_views(args@);
        if start >= args.len() {
            return Err(ArgError::ArgMustBeBulk);
        }
        proof {
            assert(vs[start as int] == args@[start as int]@);
        }
        match &args[start] {
            Resp::BulkString(b) => Ok(GetArguments { key: clone_bytes(b) }),
            _ => Err(ArgError::ArgMustBeBulk),
        }
    }
}

pub open spec fn opt_nx_text() -> Seq<u8> {
    seq![78u8, 88]
}

pub open spec fn opt_xx_text() -> Seq<u8> {
    seq![88u8, 88]
}

pub open spec fn opt_get_text() -> Seq<u8> {
    seq![71u8, 69, 84]
}

pub open spec fn opt_ex_text() -> Seq<u8> {
    seq![69u8, 88]
}

pub open spec fn opt_px_text() -> Seq<u8> {
    seq![80u8, 88]
}

/// The left-to-right scan of the SET options after key and value.
/// A later EX or PX silently wins over an earlier one.
pub open spec fn spec_set_opts(
    vs: Seq<RespVal>,
    i: int,
    nx: bool,
    xx: bool,
    g: bool,
    exp: Option<Expiration>,
) -> Result<(bool, bool, bool, Option<Expiration>), ArgError>
    decreases vs.len() - i,
{
    if i < 0 || i >= vs.len() {
        Result::Ok((nx, xx, g, exp))
    } else {
        match vs[i] {
            RespVal::BulkString(b) => if !is_utf8(b) {
                Result::Err(ArgError::ArgNotUtf8)
            } else {
                let u = spec_upper_seq(b);
                if u == opt_nx_text() {
                    spec_set_opts(vs, i + 1, true, xx, g, exp)
                } else if u == opt_xx_text() {
                    spec_set_opts(vs, i + 1, nx, true, g, exp)
                } else if u == opt_get_text() {
                    spec_set_opts(vs, i + 1, nx, xx, true, exp)
                } else if u == opt_ex_text() {
                    if i + 1 >= vs.len() {
                        Result::Err(ArgError::ExpectedSeconds)
                    } else {
                        match vs[i + 1] {
                            RespVal::BulkString(b2) => if !is_utf8(b2) {
                                Result::Err(ArgError::InvalidSecondsFormat)
                            } else {
                                match spec_parse_u64(b2) {
                                    Option::Some(secs) => spec_set_opts(
                                        vs,
                                        i + 2,
                                        nx,
                                        xx,
                                        g,
                                        Option::Some(Expiration::Seconds(secs)),
                                    ),
                                    Option::None => Result::Err(ArgError::InvalidSecondsValue),
                                }
                            },
                            _ => Result::Err(ArgError::ExpectedSeconds),
                        }
                    }
                } else if u == opt_px_text() {
                    if i + 1 >= vs.len() {
                        Result::Err(ArgError::ExpectedMillis)
                    } else {
                        match vs[i + 1] {
                            RespVal::BulkString(b2) => if !is_utf8(b2) {
                                Result::Err(ArgError::InvalidMillisFormat)
                            } else {
                                match spec_parse_u64(b2) {
                                    Option::Some(ms) => spec_set_opts(
                                        vs,
                                        i + 2,
                                        nx,
                                        xx,
                                        g,
                                        Option::Some(Expiration::Milliseconds(ms)),
                                    ),
                                    Option::None => Result::Err(ArgError::InvalidMillisValue),
                                }
                            },
                            _ => Result::Err(ArgError::ExpectedMillis),
                        }
                    }
                } else {
                    Result::Err(ArgError::UnknownArgument)
                }
            },
            _ => Result::Err(ArgError::ArgsMustBeBulk),
        }
    }
}

/// The typed arguments of SET.
#[derive(Debug, PartialEq)]
pub struct SetArguments {
    pub key: Vec<u8>,
    pub value: Record,
    pub nx: bool,
    pub xx: bool,
    pub get: bool,
    pub expiration: Option<Expiration>,
}

pub ghost struct SetVal {
    pub key: Seq<u8>,
    pub value_data: Seq<u8>,
    pub nx: bool,
    pub xx: bool,
    pub get: bool,
    pub expiration: Option<Expiration>,
}

impl View for SetArguments {
    type V = SetVal;

    open spec fn view(&self) -> SetVal {
        SetVal {
            key: self.key@,
            value_data: self.value@.data,
            nx: self.nx,
            xx: self.xx,
            get: self.get,
            expiration: self.expiration,
        }
    }
}

/// The SET grammar: a bulk key, a bulk value, then the option scan; naming
/// both NX and XX is a syntax error.
pub open spec fn spec_parse_set(vs: Seq<RespVal>, start: int) -> Result<SetVal, ArgError> {
    if !(start < vs.len() && vs[start] is BulkString) {
        Result::Err(ArgError::KeyMustBeBulk)
    } else if !(start + 1 < vs.len() && vs[start + 1] is BulkString) {
        Result::Err(ArgError::KeyMustBeBulk)
    } else {
        match spec_set_opts(vs, start + 2, false, false, false, Option::None) {
            Result::Ok(o) => if o.0 && o.1 {
                Result::Err(ArgError::SyntaxError)
            } else {
                Result::Ok(
                    SetVal {
                        key: vs[start]->BulkString_0,
                        value_data: vs[start + 1]->BulkString_0,
                        nx: o.0,
                        xx: o.1,
                        get: o.2,
                        expiration: o.3,
                    },
                )
            },
            Result::Err(e) => Result::Err(e),
        }
    }
}

impl SetArguments {
    pub fn parse(args: &Vec<Resp>, start: usize) -> (r: Result<SetArguments, ArgError>)
        ensures
            match spec_parse_set(deep_views(args@), start as int) {
                Result::Ok(v) => r matches Result::Ok(sa) && sa@ == v && sa.value@.expiry is None,
                Result::Err(e) => r matches Result::Err(e2) && e2 == e,
            },
    {
        let ghost vs = deep_views(args@);
        let n = args.len();
        if start >= n {
            return Err(ArgError::KeyMustBeBulk);
        }
        proof {
            assert(vs[start as int] == args@[start as int]@);
        }
        let key: Vec<u8> = match &args[start] {
            Resp::BulkString(b) => clone_bytes(b),
            _ => {
                return Err(ArgError::KeyMustBeBulk);
            },
        };
        if start + 1 >= n {
            return Err(ArgError::KeyMustBeBulk);
        }
        proof {
            assert(vs[start as int + 1] == args@[start as int + 1]@);
        }
        let value: Record = match &args[start + 1] {
            Resp::BulkString(b) => Record::from_vec(clone_bytes(b)),
            _ => {
                return Err(ArgError::KeyMustBeBulk);
            },
        };
        let nx_lit: Vec<u8> = vec![78u8, 88];
        let xx_lit: Vec<u8> = vec![88u8, 88];
        let get_lit: Vec<u8> = vec![71u8, 69, 84];
        let ex_lit: Vec<u8> = vec![69u8, 88];
        let px_lit: Vec<u8> = vec![80u8, 88];
        proof {
            assert(nx_lit@ =~= opt_nx_text());
            assert(xx_lit@ =~= opt_xx_text());
            assert(get_lit@ =~= opt_get_text());
            assert(ex_lit@ =~= opt_ex_text());
            assert(px_lit@ =~= opt_px_text());
        }
        let mut nx = false;
        let mut xx = false;
        let mut g = false;
        let mut exp: Option<Expiration> = None;
        let mut i = start + 2;
        while i < n
            invariant
                start + 2 <= i <= n || i >= n,
                n == args@.len(),
                vs == deep_views(args@),
                (start as int) < vs.len() && vs[start as int] is BulkString,
                (start as int) + 1 < vs.len() && vs[start as int + 1] is BulkString,
                nx_lit@ == opt_nx_text(),
                xx_lit@ == opt_xx_text(),
                get_lit@ == opt_get_text(),
                ex_lit@ == opt_ex_text(),
                px_lit@ == opt_px_text(),
                spec_set_opts(vs, start as int + 2, false, false, false, Option::None)
                    == spec_set_opts(vs, i as int, nx, xx, g, exp),
            decreases n - i,
        {
            proof {
                assert(vs[i as int] == args@[i as int]@);
            }
            let b: &Vec<u8> = match &args[i] {
                Resp::BulkString(b) => b,
                _ => {
                    return Err(ArgError::ArgsMustBeBulk);
                },
            };
            if !check_utf8(b.as_slice()) {
                return Err(ArgError::ArgNotUtf8);
            }
            let u = to_upper_bytes(b.as_slice());
            if crate::database::bytes_eq(&u, &nx_lit) {
                nx = true;
                i += 1;
            } else if crate::database::bytes_eq(&u, &xx_lit) {
                xx = true;
                i += 1;
            } else if crate::database::bytes_eq(&u, &get_lit) {
                g = true;
                i += 1;
            } else if crate::database::bytes_eq(&u, &ex_lit) {
                if i + 1 >= n {
                    return Err(ArgError::ExpectedSeconds);
                }
                proof {
                    assert(vs[i as int + 1] == args@[i as int + 1]@);
                }
                let b2: &Vec<u8> = match &args[i + 1] {
                    Resp::BulkString(b2) => b2,
                    _ => {
                        return Err(ArgError::ExpectedSeconds);
                    },
                };
                if !check_utf8(b2.as_slice()) {
                    return Err(ArgError::InvalidSecondsFormat);
                }
                match parse_u64_text(b2.as_slice()) {
                    Some(secs) => {
                        exp = Some(Expiration::Seconds(secs));
                        i += 2;
                    },
                    None => {
                        return Err(ArgError::InvalidSecondsValue);
                    },
                }
            } else if crate::database::bytes_eq(&u, &px_lit) {
                if i + 1 >= n {
                    return Err(ArgError::ExpectedMillis);
                }
                proof {
                    assert(vs[i as int + 1] == args@[i as int + 1]@);
                }
                let b2: &Vec<u8> = match &args[i + 1] {
                    Resp::BulkString(b2) => b2,
                    _ => {
                        return Err(ArgError::ExpectedMillis);
                    },
                };
                if !check_utf8(b2.as_slice()) {
                    return Err(ArgError::InvalidMillisFormat);
                }
                match parse_u64_text(b2.as_slice()) {
                    Some(ms) => {
                        exp = Some(Expiration::Milliseconds(ms));
                        i += 2;
                    },
                    None => {
                        return Err(ArgError::InvalidMillisValue);
                    },
                }
            } else {
                return Err(ArgError::UnknownArgument);
            }
        }
        if nx && xx {
            return Err(ArgError::SyntaxError);
        }
        Ok(SetArguments { key, value, nx, xx, get: g, expiration: exp })
    }
}

} // verus!

verus! {

pub open spec fn cmd_ping_text() -> Seq<u8> {
    seq![80u8, 73, 78, 71]
}

pub open spec fn cmd_info_text() -> Seq<u8> {
    seq![73u8, 78, 70, 79]
}

pub open spec fn cmd_get_text() -> Seq<u8> {
    seq![71u8, 69, 84]
}

pub open spec fn cmd_set_text() -> Seq<u8> {
    seq![83u8, 69, 84]
}

pub open spec fn cmd_echo_text() -> Seq<u8> {
    seq![69u8, 67, 72, 79]
}

pub open spec fn cmd_replconf_text() -> Seq<u8> {
    seq![82u8, 69, 80, 76, 67, 79, 78, 70]
}

pub open spec fn cmd_psync_text() -> Seq<u8> {
    seq![80u8, 83, 89, 78, 67]
}

/// One recognized command with its parsed arguments.
#[derive(Debug, PartialEq)]
pub enum CommandArgument {
    Ping,
    Info,
    Echo(EchoArguments),
    Get(GetArguments),
    SetOp(SetArguments),
    Replconf(ReplconfArguments),
    Psync(PsyncArguments),
}

pub ghost enum CmdArgVal {
    Ping,
    Info,
    Echo(RespVal),
    Get(Seq<u8>),
    SetOp(SetVal),
    Replconf(ReplVal),
    Psync(PsyncVal),
}

impl View for CommandArgument {
    type V = CmdArgVal;

    open spec fn view(&self) -> CmdArgVal {
        match self {
            CommandArgument::Ping => CmdArgVal::Ping,
            CommandArgument::Info => CmdArgVal::Info,
            CommandArgument::Echo(e) => CmdArgVal::Echo(e@),
            CommandArgument::Get(g) => CmdArgVal::Get(g@),
            CommandArgument::SetOp(s) => CmdArgVal::SetOp(s@),
            CommandArgument::Replconf(r) => CmdArgVal::Replconf(r@),
            CommandArgument::Psync(p) => CmdArgVal::Psync(p@),
        }
    }
}

/// Dispatch on the first element of the request array, read as text and
/// uppercased; each recognized name hands the rest to its own grammar.
pub open spec fn spec_get_from(vs: Seq<RespVal>) -> Result<CmdArgVal, ArgError> {
    if vs.len() == 0 {
        Result::Err(ArgError::UnknownCommand)
    } else {
        match spec_resp_text(vs[0]) {
            Option::None => Result::Err(ArgError::UnknownCommand),
            Option::Some(t) => {
                let u = spec_upper_seq(t);
                if u == cmd_ping_text() {
                    Result::Ok(CmdArgVal::Ping)
                } else if u == cmd_info_text() {
                    Result::Ok(CmdArgVal::Info)
                } else if u == cmd_get_text() {
                    match spec_parse_get(vs, 1) {
                        Result::Ok(k) => Result::Ok(CmdArgVal::Get(k)),
                        Result::Err(e) => Result::Err(e),
                    }
                } else if u == cmd_set_text() {
                    match spec_parse_set(vs, 1) {
                        Result::Ok(sv) => Result::Ok(CmdArgVal::SetOp(sv)),
                        Result::Err(e) => Result::Err(e),
                    }
                } else if u == cmd_echo_text() {
                    match spec_parse_echo(vs, 1) {
                        Result::Ok(m) => Result::Ok(CmdArgVal::Echo(m)),
                        Result::Err(e) => Result::Err(e),
                    }
                } else if u == cmd_replconf_text() {
                    match spec_parse_replconf(vs, 1) {
                        Result::Ok(rv) => Result::Ok(CmdArgVal::Replconf(rv)),
                        Result::Err(e) => Result::Err(e),
                    }
                } else if u == cmd_psync_text() {
                    match spec_parse_psync(vs, 1) {
                        Result::Ok(pv) => Result::Ok(CmdArgVal::Psync(pv)),
                        Result::Err(e) => Result::Err(e),
                    }
                } else {
                    Result::Err(ArgError::UnknownCommand)
                }
            },
        }
    }
}

/// Routes a request array to its command's argument grammar.
pub struct ArgumentParser;

impl ArgumentParser {
    pub fn get_from(args: &Vec<Resp>) -> (r: Result<CommandArgument, ArgError>)
        ensures
            match spec_get_from(deep_views(args@)) {
                Result::Ok(v) => r matches Result::Ok(ca) && ca@ == v,
                Result::Err(e) => r matches Result::Err(e2) && e2 == e,
            },
            r matches Result::Ok(CommandArgument::SetOp(s)) ==> s.value@.expiry is None,
    {
        let ghost vs = deep_views(args@);
        if args.len() == 0 {
            return Err(ArgError::UnknownCommand);
        }
        proof {
            assert(vs[0] == args@[0]@);
        }
        let text = match resp_to_text(&args[0]) {
            Some(t) => t,
            None => {
                return Err(ArgError::UnknownCommand);
            },
        };
        let u = to_upper_bytes(text.as_slice());
        let ping_lit: Vec<u8> = vec![80u8, 73, 78, 71];
        let info_lit: Vec<u8> = vec![73u8, 78, 70, 79];
        let get_lit: Vec<u8> = vec![71u8, 69, 84];
        let set_lit: Vec<u8> = vec![83u8, 69, 84];
        let echo_lit: Vec<u8> = vec![69u8, 67, 72, 79];
        let replconf_lit: Vec<u8> = vec![82u8, 69, 80, 76, 67, 79, 78, 70];
        let psync_lit: Vec<u8> = vec![80u8, 83, 89, 78, 67];
        proof {
            assert(ping_lit@ =~= cmd_ping_text());
            assert(info_lit@ =~= cmd_info_text());
            assert(get_lit@ =~= cmd_get_text());
            assert(set_lit@ =~= cmd_set_text());
            assert(echo_lit@ =~= cmd_echo_text());
            assert(replconf_lit@ =~= cmd_replconf_text());
            assert(psync_lit@ =~= cmd_psync_text());
        }
        if crate::database::bytes_eq(&u, &ping_lit) {
            Ok(CommandArgument::Ping)
        } else if crate::database::bytes_eq(&u, &info_lit) {
            Ok(CommandArgument::Info)
        } else if crate::database::bytes_eq(&u, &get_lit) {
            match GetArguments::parse(args, 1) {
                Ok(g) => Ok(CommandArgument::Get(g)),
                Err(e) => Err(e),
            }
        } else if crate::database::bytes_eq(&u, &set_lit) {
            match SetArguments::parse(args, 1) {
                Ok(s) => Ok(CommandArgument::SetOp(s)),
                Err(e) => Err(e),
            }
        } else if crate::database::bytes_eq(&u, &echo_lit) {
            match EchoArguments::parse(args, 1) {
                Ok(e) => Ok(CommandArgument::Echo(e)),
                Err(e2) => Err(e2),
            }
        } else if crate::database::bytes_eq(&u, &replconf_lit) {
            match ReplconfArguments::parse(args, 1) {
                Ok(rv) => Ok(CommandArgument::Replconf(rv)),
                Err(e) => Err(e),
            }
        } else if crate::database::bytes_eq(&u, &psync_lit) {
            match PsyncArguments::parse(args, 1) {
                Ok(p) => Ok(CommandArgument::Psync(p)),
                Err(e) => Err(e),
            }
        } else {
            Err(ArgError::UnknownCommand)
        }
    }
}

} // verus!

verus! {

/// The `ERR ` prefix every error reply carries on the wire.
pub open spec fn err_prefix() -> Seq<u8> {
    seq![69u8, 82, 82, 32]
}

/// An error reply's full text: the prefix and the message.
pub fn prefixed_message(e: ArgError) -> (r: Vec<u8>)
    ensures
        r@ == err_prefix() + spec_message(e),
{
    let mut out: Vec<u8> = vec![69u8, 82, 82, 32];
    proof {
        assert(out@ =~= err_prefix());
    }
    let m = e.message();
    let ghost pre = out@;
    let mut i: usize = 0;
    while i < m.len()
        invariant
            0 <= i <= m@.len(),
            out@ == pre + m@.subrange(0, i as int),
        decreases m@.len() - i,
    {
        out.push(m[i]);
        i += 1;
        assert(out@ =~= pre + m@.subrange(0, i as int));
    }
    proof {
        assert(m@.subrange(0, m@.len() as int) =~= m@);
    }
    out
}

} // verus!
