//! Replication-facing argument forms: the REPLCONF subcommands and the
//! PSYNC request.
use vstd::prelude::*;

use crate::arguments::{resp_to_text, spec_resp_text, ArgError};
use crate::resp::{Resp, RespVal};
use crate::text::{spec_upper_seq, to_upper_bytes};

verus! {

pub open spec fn listening_port_text() -> Seq<u8> {
    seq![76u8, 73, 83, 84, 69, 78, 73, 78, 71, 45, 80, 79, 82, 84]
}

pub open spec fn capa_text() -> Seq<u8> {
    seq![67u8, 65, 80, 65]
}

pub open spec fn getack_text() -> Seq<u8> {
    seq![71u8, 69, 84, 65, 67, 75]
}

/// A REPLCONF subcommand with its single argument.
#[derive(Debug, PartialEq)]
pub enum ReplconfArguments {
    ListeningPort(Vec<u8>),
    Capa(Vec<u8>),
    GetAck(Vec<u8>),
}

pub ghost enum ReplVal {
    ListeningPort(Seq<u8>),
    Capa(Seq<u8>),
    GetAck(Seq<u8>),
}

impl View for ReplconfArguments {
    type V = ReplVal;

    open spec fn view(&self) -> ReplVal {
        match self {
            ReplconfArguments::ListeningPort(v) => ReplVal::ListeningPort(v@),
            ReplconfArguments::Capa(v) => ReplVal::Capa(v@),
            ReplconfArguments::GetAck(v) => ReplVal::GetAck(v@),
        }
    }
}

/// A PSYNC request: a replication id and an offset, both as text.
#[derive(Debug, PartialEq)]
pub enum PsyncArguments {
    FullResync(Vec<u8>, Vec<u8>),
}

pub ghost enum PsyncVal {
    FullResync(Seq<u8>, Seq<u8>),
}

impl View for PsyncArguments {
    type V = PsyncVal;

    open spec fn view(&self) -> PsyncVal {
        match self {
            PsyncArguments::FullResync(a, b) => PsyncVal::FullResync(a@, b@),
        }
    }
}

/// The next argument read as text: absent is one error, untextual another.
pub open spec fn spec_try_string(vs: Seq<RespVal>, i: int) -> Result<Seq<u8>, ArgError> {
    if i >= vs.len() {
        Result::Err(ArgError::ExpectedArgument)
    } else {
        match spec_resp_text(vs[i]) {
            Option::Some(t) => Result::Ok(t),
            Option::None => Result::Err(ArgError::ConversionFailed),
        }
    }
}

/// The REPLCONF argument grammar: a subcommand name (matched after ASCII
/// uppercasing) and exactly one further argument.
pub open spec fn spec_parse_replconf(vs: Seq<RespVal>, i: int) -> Result<ReplVal, ArgError> {
    if i >= vs.len() {
        Result::Err(ArgError::ExpectedArgument)
    } else {
        match spec_resp_text(vs[i]) {
            Option::None => Result::Err(ArgError::ExpectedArgument),
            Option::Some(s) => {
                let u = spec_upper_seq(s);
                if u == listening_port_text() {
                    match spec_try_string(vs, i + 1) {
                        Result::Ok(t) => if vs.len() > i + 2 {
                            Result::Err(ArgError::TooManyArguments)
                        } else {
                            Result::Ok(ReplVal::ListeningPort(t))
                        },
                        Result::Err(e) => Result::Err(e),
                    }
                } else if u == capa_text() {
                    match spec_try_string(vs, i + 1) {
                        Result::Ok(t) => if vs.len() > i + 2 {
                            Result::Err(ArgError::TooManyArguments)
                        } else {
                            Result::Ok(ReplVal::Capa(t))
                        },
                        Result::Err(e) => Result::Err(e),
                    }
                } else if u == getack_text() {
                    match spec_try_string(vs, i + 1) {
                        Result::Ok(t) => if vs.len() > i + 2 {
                            Result::Err(ArgError::TooManyArguments)
                        } else {
                            Result::Ok(ReplVal::GetAck(t))
                        },
                        Result::Err(e) => Result::Err(e),
                    }
                } else {
                    Result::Err(ArgError::UnknownArgument)
                }
            },
        }
    }
}

/// The PSYNC argument grammar: a replication id and an offset, as text,
/// and nothing more.
pub open spec fn spec_parse_psync(vs: Seq<RespVal>, i: int) -> Result<PsyncVal, ArgError> {
    match spec_try_string(vs, i) {
        Result::Ok(id) => match spec_try_string(vs, i + 1) {
            Result::Ok(off) => if vs.len() > i + 2 {
                Result::Err(ArgError::TooManyArguments)
            } else {
                Result::Ok(PsyncVal::FullResync(id, off))
            },
            Result::Err(e) => Result::Err(e),
        },
        Result::Err(e) => Result::Err(e),
    }
}

fn try_string(args: &Vec<Resp>, i: usize) -> (r: Result<Vec<u8>, ArgError>)
    ensures
        match spec_try_string(crate::resp::deep_views(args@), i as int) {
            Result::Ok(t) => r matches Result::Ok(v) && v@ == t,
            Result::Err(e) => r matches Result::Err(e2) && e2 == e,
        },
{
    let ghost vs = crate::resp::deep_views(args@);
    if i >= args.len() {
        return Err(ArgError::ExpectedArgument);
    }
    proof {
        assert(vs[i as int] == args@[i as int]@);
    }
    match resp_to_text(&args[i]) {
        Some(t) => Ok(t),
        None => Err(ArgError::ConversionFailed),
    }
}

impl ReplconfArguments {
    /// Parse the arguments that follow the REPLCONF name.
    pub fn parse(args: &Vec<Resp>, start: usize) -> (r: Result<ReplconfArguments, ArgError>)
        ensures
            match spec_parse_replconf(crate::resp::deep_views(args@), start as int) {
                Result::Ok(v) => r matches Result::Ok(ra) && ra@ == v,
                Result::Err(e) => r matches Result::Err(e2) && e2 == e,
            },
    {
        let ghost vs = crate::resp::deep_views(args@);
        if start >= args.len() {
            return Err(ArgError::ExpectedArgument);
        }
        proof {
            assert(vs[start as int] == args@[start as int]@);
        }
        let text = match resp_to_text(&args[start]) {
            Some(t) => t,
            None => {
                return Err(ArgError::ExpectedArgument);
            },
        };
        let upper = to_upper_bytes(text.as_slice());
        let lp: Vec<u8> = vec![76u8, 73, 83, 84, 69, 78, 73, 78, 71, 45, 80, 79, 82, 84];
        let capa: Vec<u8> = vec![67u8, 65, 80, 65];
        let getack: Vec<u8> = vec![71u8, 69, 84, 65, 67, 75];
        proof {
            assert(lp@ =~= listening_port_text());
            assert(capa@ =~= capa_text());
            assert(getack@ =~= getack_text());
        }
        if crate::database::bytes_eq(&upper, &lp) {
            match try_string(args, start + 1) {
                Ok(t) => {
                    if args.len() > start + 2 {
                        Err(ArgError::TooManyArguments)
                    } else {
                        Ok(ReplconfArguments::ListeningPort(t))
                    }
                },
                Err(e) => Err(e),
            }
        } else if crate::database::bytes_eq(&upper, &capa) {
            match try_string(args, start + 1) {
                Ok(t) => {
                    if args.len() > start + 2 {
                        Err(ArgError::TooManyArguments)
                    } else {
                        Ok(ReplconfArguments::Capa(t))
                    }
                },
                Err(e) => Err(e),
            }
        } else if crate::database::bytes_eq(&upper, &getack) {
            match try_string(args, start + 1) {
                Ok(t) => {
                    if args.len() > start + 2 {
                        Err(ArgError::TooManyArguments)
                    } else {
                        Ok(ReplconfArguments::GetAck(t))
                    }
                },
                Err(e) => Err(e),
            }
        } else {
            Err(ArgError::UnknownArgument)
        }
    }
}

impl PsyncArguments {
    /// Parse the arguments that follow the PSYNC name.
    pub fn parse(args: &Vec<Resp>, start: usize) -> (r: Result<PsyncArguments, ArgError>)
        ensures
            match spec_parse_psync(crate::resp::deep_views(args@), start as int) {
                Result::Ok(v) => r matches Result::Ok(pa) && pa@ == v,
                Result::Err(e) => r matches Result::Err(e2) && e2 == e,
            },
    {
        let n = args.len();
        let id = match try_string(args, start) {
            Ok(t) => t,
            Err(e) => {
                return Err(e);
            },
        };
        proof {
            assert(crate::resp::deep_views(args@).len() == args@.len());
            assert(start < n);
        }
        let off = match try_string(args, start + 1) {
            Ok(t) => t,
            Err(e) => {
                return Err(e);
            },
        };
        if args.len() > start + 2 {
            Err(ArgError::TooManyArguments)
        } else {
            Ok(PsyncArguments::FullResync(id, off))
        }
    }
}

} // verus!

verus! {

/// REPLCONF as an executable command; the listening-port form starts the
/// acceptor handshake, which the dispatcher drives.
pub struct ReplconfCommand(pub ReplconfArguments);

} // verus!

use crate::command::Transaction;
use crate::connection::{conn_frame, gates_frame, Connection};
use crate::server::ServerInfo;

verus! {

pub open spec fn ack_word() -> Seq<u8> {
    seq![65u8, 67, 75]
}

impl ReplconfCommand {
    /// The listening-port form asks the dispatcher to start the acceptor
    /// handshake; GETACK answers with the observed offset; anything else is
    /// an unsupported sequence.
    pub fn execute(self, stream: &mut Connection, info: &ServerInfo) -> (t: Transaction)
        requires
            old(stream).inv(),
        ensures
            final(stream).inv(),
            conn_frame(*old(stream), *final(stream)),
            gates_frame(*old(stream), *final(stream)),
            match self.0@ {
                ReplVal::ListeningPort(_) => t == Transaction::Replicate && final(stream).out_bytes() == old(stream).out_bytes(),
                ReplVal::GetAck(_) => t == Transaction::Noop && final(stream).out_bytes() == old(stream).out_bytes() + if old(stream).is_writable() {
                    crate::resp::spec_encode(
                        crate::client::spec_ack_reply(info.spec_offset() as int),
                    )
                } else {
                    Seq::<u8>::empty()
                },
                ReplVal::Capa(_) => t == Transaction::Noop && final(stream).out_bytes() == old(stream).out_bytes() + if old(stream).is_writable() {
                    crate::resp::enc_line(
                        45,
                        crate::arguments::err_prefix() + crate::arguments::spec_message(
                            ArgError::UnsupportedProtocol,
                        ),
                    )
                } else {
                    Seq::<u8>::empty()
                },
            },
    {
        match self.0 {
            ReplconfArguments::ListeningPort(_) => Transaction::Replicate,
            ReplconfArguments::GetAck(_) => {
                let mut args: Vec<Vec<u8>> = Vec::new();
                let ack: Vec<u8> = vec![65u8, 67, 75];
                proof {
                    assert(ack@ =~= ack_word());
                }
                args.push(ack);
                args.push(crate::text::i64_dec(info.get_master_repl_offset()));
                proof {
                    assert(crate::client::bulk_views(args@) =~= seq![
                        RespVal::BulkString(ack_word()),
                        RespVal::BulkString(crate::text::spec_idec(info.spec_offset() as int)),
                    ]);
                }
                let r = crate::client::repl_conf(stream, args);
                proof {
                    assert(crate::client::spec_request(crate::client::replconf_word(), args@)
                        == crate::client::spec_ack_reply(info.spec_offset() as int)) by {
                        assert(seq![RespVal::BulkString(crate::client::replconf_word())]
                            + crate::client::bulk_views(args@) =~= seq![
                            RespVal::BulkString(crate::client::replconf_word()),
                            RespVal::BulkString(ack_word()),
                            RespVal::BulkString(crate::text::spec_idec(info.spec_offset() as int)),
                        ]);
                        assert(ack_word() =~= seq![65u8, 67, 75]);
                    }
                    if !old(stream).is_writable() {
                        assert(stream.out_bytes() =~= old(stream).out_bytes()
                            + Seq::<u8>::empty());
                    }
                }
                Transaction::Noop
            },
            ReplconfArguments::Capa(_) => {
                let msg = crate::arguments::prefixed_message(ArgError::UnsupportedProtocol);
                let r = stream.write_err(msg.as_slice());
                proof {
                    if !old(stream).is_writable() {
                        assert(stream.out_bytes() =~= old(stream).out_bytes()
                            + Seq::<u8>::empty());
                    }
                }
                Transaction::Noop
            },
        }
    }
}

} // verus!
