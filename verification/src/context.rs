//! The per-connection dispatcher. Each step frames one request from the
//! buffered input, executes it, and reports what the runtime must do next:
//! read more bytes, send deltas to replicas, keep the connection as a
//! replica link, or close it.
use vstd::prelude::*;

use crate::arguments::{prefixed_message, ArgError, CmdArgVal};
use crate::command::{
    db_get_effect, db_set_effect, db_unchanged, spec_get_reply, spec_info_payload, spec_parse_cmd,
    spec_set_reply, pong_text, Cmd, CmdParser, Transaction,
};
use crate::resp::{enc_bulk, enc_line, spec_encode, spec_parse, ParseStep, RespVal};
use crate::arguments::{err_prefix, spec_message};
use crate::client::spec_ack_reply;
use crate::connection::{protocol_error_text, read_run_state, Connection, Error};
use crate::history::{deltas_match, hist_unchanged, hist_write_effect};
use crate::internals::ReplVal;
use crate::database::Database;
use crate::history::History;
use crate::internals::ReplconfArguments;
use crate::protocol::{
    spec_acceptor_run, AcceptorRun, HandshakeStatus, ReplServerProtocol, ReplServerState,
};
use crate::server::ServerInfo;

verus! {

/// What a master-side step asks of the runtime.
pub enum MasterStep {
    /// Feed more socket bytes.
    NeedInput,
    /// A request was handled; send each attached replica its delta, in
    /// order, and drop the ones whose sockets fail.
    Progress(Vec<Vec<u8>>),
    /// The handshake completed: attach this connection to the ledger and
    /// leave the request loop.
    Replicate,
    /// The connection is done for; flush any queued error reply and close.
    Fatal(Error),
}

/// What a replica-inbound step asks of the runtime, with the consumed byte
/// count on progress.
pub enum ReplicaStep {
    NeedInput,
    Progress(u64),
    Fatal(Error),
}

/// What a step of the restricted client loop on a replica asks.
pub enum LimitedStep {
    NeedInput,
    Progress,
    Stop,
    Fatal(Error),
}

/// One client session: the framed connection and, once a handshake has
/// begun, the acceptor that is driving it.
pub struct Context {
    pub stream: Connection,
    handshake: Option<ReplServerProtocol>,
}

impl Context {
    pub closed spec fn inv(&self) -> bool {
        self.stream.inv() && self.stream.is_writable() && self.stream.is_readable()
    }

    /// Whether the acceptor handshake is underway on this session.
    pub closed spec fn in_handshake(&self) -> bool {
        self.handshake is Some
    }

    /// The acceptor's state, while a handshake is underway.
    pub closed spec fn handshake_state(&self) -> crate::protocol::ReplServerState {
        match self.handshake {
            Option::Some(h) => h.state,
            Option::None => crate::protocol::ReplServerState::ProtocolError,
        }
    }

    pub closed spec fn handshake_sent(&self) -> bool {
        match self.handshake {
            Option::Some(h) => h.sent,
            Option::None => false,
        }
    }

    pub closed spec fn stream_read_bytes(&self) -> Seq<u8> {
        self.stream.read_bytes()
    }

    pub closed spec fn stream_read_mark(&self) -> int {
        self.stream.read_mark()
    }

    /// The framed connection itself, for read-state clauses.
    pub closed spec fn stream_of(&self) -> Connection {
        self.stream
    }

    pub closed spec fn out_bytes(&self) -> Seq<u8> {
        self.stream.out_bytes()
    }

    pub fn new(stream: Connection) -> (r: Context)
        requires
            stream.inv(),
            stream.is_writable(),
            stream.is_readable(),
        ensures
            r.inv(),
            r.out_bytes() == stream.out_bytes(),
    {
        Context { stream, handshake: None }
    }

    /// Bytes read from the socket.
    pub fn feed(&mut self, data: &[u8])
        requires
            old(self).inv(),
        ensures
            final(self).inv(),
            final(self).out_bytes() == old(self).out_bytes(),
    {
        self.stream.feed(data);
    }

    /// The queued output for the socket writer.
    pub fn take_output(&mut self) -> (r: Vec<u8>)
        requires
            old(self).inv(),
        ensures
            final(self).inv(),
            r@ == old(self).out_bytes(),
            final(self).out_bytes() == Seq::<u8>::empty(),
    {
        self.stream.take_output()
    }

    /// One master-side step: during a handshake the acceptor runs;
    /// otherwise one request is framed, parsed and executed, a rejected
    /// request is answered with its error, and a write appends its raw
    /// bytes to the ledger and yields the fan-out deltas.
    #[verifier::rlimit(100)]
    pub fn master_exec_step(
        &mut self,
        db: &mut Database,
        hist: &mut History,
        info: &ServerInfo,
        now_ms: u64,
        rdb: &[u8],
    ) -> (r: MasterStep)
        requires
            old(self).inv(),
            old(db).inv(),
            old(hist).inv(),
        ensures
            final(self).inv(),
            final(db).inv(),
            final(hist).inv(),
            final(hist).ledger().len() >= old(hist).ledger().len(),
            old(hist).ledger() == final(hist).ledger().subrange(
                0,
                old(hist).ledger().len() as int,
            ),
            old(self).in_handshake() ==> ({
                let run = spec_acceptor_run(
                    old(self).handshake_state(),
                    old(self).handshake_sent(),
                    old(self).stream_read_bytes(),
                    old(self).stream_read_mark(),
                    info.spec_replid(),
                    info.spec_offset() as int,
                    rdb@,
                );
                &&& final(self).out_bytes() == old(self).out_bytes() + run.out
                &&& read_run_state(
                    old(self).stream_read_bytes(),
                    run.pos,
                    final(self).stream_of(),
                )
                &&& db_unchanged(*old(db), *final(db))
                &&& hist_unchanged(*old(hist), *final(hist))
                &&& match run.status {
                    HandshakeStatus::NeedInput => r is NeedInput && final(self).in_handshake()
                        && final(self).handshake_state() == run.state && final(self).handshake_sent() == run.sent,
                    HandshakeStatus::Done => r is Replicate && !final(self).in_handshake(),
                    HandshakeStatus::Failed => r == MasterStep::Fatal(Error::ConnectionClosed)
                        && !final(self).in_handshake(),
                }
            }),
            !old(self).in_handshake() ==> ({
                let s = old(self).stream_read_bytes();
                let mark = old(self).stream_read_mark();
                match spec_parse(s, mark) {
                    ParseStep::Fail(crate::resp::ParseError::UnexpectedEndOfInput) => {
                        &&& r is NeedInput
                        &&& !final(self).in_handshake()
                        &&& final(self).out_bytes() == old(self).out_bytes()
                        &&& db_unchanged(*old(db), *final(db))
                        &&& hist_unchanged(*old(hist), *final(hist))
                    },
                    _ => true,
                }
            }),
            !old(self).in_handshake() ==> ({
                let s = old(self).stream_read_bytes();
                let mark = old(self).stream_read_mark();
                match spec_parse(s, mark) {
                    ParseStep::Fail(crate::resp::ParseError::UnexpectedEndOfInput) => true,
                    ParseStep::Fail(k) => {
                        &&& r == MasterStep::Fatal(Error::ParseError(k))
                        &&& final(self).out_bytes() == old(self).out_bytes() + enc_line(
                            45,
                            protocol_error_text(),
                        )
                        &&& db_unchanged(*old(db), *final(db))
                        &&& hist_unchanged(*old(hist), *final(hist))
                    },
                    _ => true,
                }
            }),
            !old(self).in_handshake() ==> ({
                let s = old(self).stream_read_bytes();
                let mark = old(self).stream_read_mark();
                match spec_parse(s, mark) {
                    ParseStep::Done(v, p) => match spec_parse_cmd(v) {
                        Result::Err(e) => {
                            &&& r matches MasterStep::Progress(d) && d@.len() == 0
                            &&& read_run_state(s, p, final(self).stream_of())
                            &&& final(self).out_bytes() == old(self).out_bytes() + enc_line(
                                45,
                                err_prefix() + spec_message(e),
                            )
                            &&& db_unchanged(*old(db), *final(db))
                            &&& hist_unchanged(*old(hist), *final(hist))
                        },
                        _ => true,
                    },
                    _ => true,
                }
            }),
            !old(self).in_handshake() ==> ({
                let s = old(self).stream_read_bytes();
                let mark = old(self).stream_read_mark();
                match spec_parse(s, mark) {
                    ParseStep::Done(v, p) => match spec_parse_cmd(v) {
                        Result::Ok(CmdArgVal::Ping) => {
                            &&& r matches MasterStep::Progress(d) && d@.len() == 0
                            &&& read_run_state(s, p, final(self).stream_of())
                            &&& final(self).out_bytes() == old(self).out_bytes() + enc_line(
                                43,
                                pong_text(),
                            )
                            &&& db_unchanged(*old(db), *final(db))
                            &&& hist_unchanged(*old(hist), *final(hist))
                        },
                        _ => true,
                    },
                    _ => true,
                }
            }),
            !old(self).in_handshake() ==> ({
                let s = old(self).stream_read_bytes();
                let mark = old(self).stream_read_mark();
                match spec_parse(s, mark) {
                    ParseStep::Done(v, p) => match spec_parse_cmd(v) {
                        Result::Ok(CmdArgVal::Echo(m)) => {
                            &&& r matches MasterStep::Progress(d) && d@.len() == 0
                            &&& read_run_state(s, p, final(self).stream_of())
                            &&& final(self).out_bytes() == old(self).out_bytes() + spec_encode(m)
                            &&& db_unchanged(*old(db), *final(db))
                            &&& hist_unchanged(*old(hist), *final(hist))
                        },
                        _ => true,
                    },
                    _ => true,
                }
            }),
            !old(self).in_handshake() ==> ({
                let s = old(self).stream_read_bytes();
                let mark = old(self).stream_read_mark();
                match spec_parse(s, mark) {
                    ParseStep::Done(v, p) => match spec_parse_cmd(v) {
                        Result::Ok(CmdArgVal::Info) => {
                            &&& r matches MasterStep::Progress(d) && d@.len() == 0
                            &&& read_run_state(s, p, final(self).stream_of())
                            &&& final(self).out_bytes() == old(self).out_bytes() + enc_bulk(
                                36,
                                spec_info_payload(
                                    info.spec_role(),
                                    info.spec_replid(),
                                    info.spec_offset() as int,
                                ),
                            )
                            &&& db_unchanged(*old(db), *final(db))
                            &&& hist_unchanged(*old(hist), *final(hist))
                        },
                        _ => true,
                    },
                    _ => true,
                }
            }),
            !old(self).in_handshake() ==> ({
                let s = old(self).stream_read_bytes();
                let mark = old(self).stream_read_mark();
                match spec_parse(s, mark) {
                    ParseStep::Done(v, p) => match spec_parse_cmd(v) {
                        Result::Ok(CmdArgVal::Get(key)) => {
                            &&& r matches MasterStep::Progress(d) && d@.len() == 0
                            &&& read_run_state(s, p, final(self).stream_of())
                            &&& final(self).out_bytes() == old(self).out_bytes() + spec_get_reply(
                                old(db).spec_lookup(key),
                                now_ms,
                            )
                            &&& db_get_effect(*old(db), *final(db), key, now_ms)
                            &&& hist_unchanged(*old(hist), *final(hist))
                        },
                        _ => true,
                    },
                    _ => true,
                }
            }),
            !old(self).in_handshake() ==> ({
                let s = old(self).stream_read_bytes();
                let mark = old(self).stream_read_mark();
                match spec_parse(s, mark) {
                    ParseStep::Done(v, p) => match spec_parse_cmd(v) {
                        Result::Ok(CmdArgVal::SetOp(sv)) => {
                            let prev = old(db).spec_lookup(sv.key);
                            let raw = s.subrange(mark, p);
                            &&& read_run_state(s, p, final(self).stream_of())
                            &&& final(self).out_bytes() == old(self).out_bytes() + spec_set_reply(
                                sv,
                                prev,
                            )
                            &&& db_set_effect(*old(db), *final(db), sv, now_ms)
                            &&& if sv.nx && prev is Some {
                                &&& hist_unchanged(*old(hist), *final(hist))
                                &&& r matches MasterStep::Progress(d) && d@.len() == 0
                            } else if sv.xx && !sv.nx && prev is None {
                                &&& hist_unchanged(*old(hist), *final(hist))
                                &&& r matches MasterStep::Progress(d) && d@.len() == 0
                            } else {
                                &&& hist_write_effect(*old(hist), *final(hist), raw)
                                &&& r matches MasterStep::Progress(d) && deltas_match(
                                    d@,
                                    *old(hist),
                                    *final(hist),
                                )
                            }
                        },
                        _ => true,
                    },
                    _ => true,
                }
            }),
            !old(self).in_handshake() ==> ({
                let s = old(self).stream_read_bytes();
                let mark = old(self).stream_read_mark();
                match spec_parse(s, mark) {
                    ParseStep::Done(v, p) => match spec_parse_cmd(v) {
                        Result::Ok(CmdArgVal::Replconf(rv)) => match rv {
                            ReplVal::GetAck(_) => {
                                &&& r matches MasterStep::Progress(d) && d@.len() == 0
                                &&& read_run_state(s, p, final(self).stream_of())
                                &&& final(self).out_bytes() == old(self).out_bytes()
                                    + spec_encode(spec_ack_reply(info.spec_offset() as int))
                                &&& db_unchanged(*old(db), *final(db))
                                &&& hist_unchanged(*old(hist), *final(hist))
                            },
                            _ => true,
                        },
                        _ => true,
                    },
                    _ => true,
                }
            }),
            !old(self).in_handshake() ==> ({
                let s = old(self).stream_read_bytes();
                let mark = old(self).stream_read_mark();
                match spec_parse(s, mark) {
                    ParseStep::Done(v, p) => match spec_parse_cmd(v) {
                        Result::Ok(CmdArgVal::Replconf(rv)) => match rv {
                            ReplVal::Capa(_) => {
                                &&& r matches MasterStep::Progress(d) && d@.len() == 0
                                &&& read_run_state(s, p, final(self).stream_of())
                                &&& final(self).out_bytes() == old(self).out_bytes() + enc_line(
                                    45,
                                    err_prefix() + spec_message(
                                        crate::arguments::ArgError::UnsupportedProtocol,
                                    ),
                                )
                                &&& db_unchanged(*old(db), *final(db))
                                &&& hist_unchanged(*old(hist), *final(hist))
                            },
                            _ => true,
                        },
                        _ => true,
                    },
                    _ => true,
                }
            }),
            !old(self).in_handshake() ==> ({
                let s = old(self).stream_read_bytes();
                let mark = old(self).stream_read_mark();
                match spec_parse(s, mark) {
                    ParseStep::Done(v, p) => match spec_parse_cmd(v) {
                        Result::Ok(CmdArgVal::Replconf(rv)) => match rv {
                            ReplVal::ListeningPort(_) => ({
                                let run = spec_acceptor_run(
                                    ReplServerState::ReceivedListeningPort,
                                    false,
                                    s,
                                    p,
                                    info.spec_replid(),
                                    info.spec_offset() as int,
                                    rdb@,
                                );
                                &&& final(self).out_bytes() == old(self).out_bytes() + run.out
                                &&& read_run_state(s, run.pos, final(self).stream_of())
                                &&& db_unchanged(*old(db), *final(db))
                                &&& hist_unchanged(*old(hist), *final(hist))
                                &&& match run.status {
                                    HandshakeStatus::NeedInput => r is NeedInput && final(self).in_handshake() && final(self).handshake_state() == run.state
                                        && final(self).handshake_sent() == run.sent,
                                    HandshakeStatus::Done => r is Replicate && !final(self).in_handshake(),
                                    HandshakeStatus::Failed => r == MasterStep::Fatal(
                                        Error::ConnectionClosed,
                                    ) && !final(self).in_handshake(),
                                }
                            }),
                            _ => true,
                        },
                        _ => true,
                    },
                    _ => true,
                }
            }),
    {
        proof {
            assert(old(hist).ledger() =~= old(hist).ledger().subrange(
                0,
                old(hist).ledger().len() as int,
            ));
        }
        if self.handshake.is_some() {
            let mut hs = self.handshake.take().unwrap();
            let status = hs.start(&mut self.stream, info, rdb);
            match status {
                HandshakeStatus::NeedInput => {
                    self.handshake = Some(hs);
                    return MasterStep::NeedInput;
                },
                HandshakeStatus::Done => {
                    return MasterStep::Replicate;
                },
                HandshakeStatus::Failed => {
                    return MasterStep::Fatal(Error::ConnectionClosed);
                },
            }
        }
        let msg = match self.stream.try_read_message() {
            Ok(Some(m)) => m,
            Ok(None) => {
                return MasterStep::NeedInput;
            },
            Err(e) => {
                proof {
                    assert(self.out_bytes() =~= old(self).out_bytes() + enc_line(
                        45,
                        protocol_error_text(),
                    ));
                }
                return MasterStep::Fatal(e);
            },
        };
        let (value, _count, raw) = msg;
        let cmd = CmdParser::parse(&value);
        match cmd {
            Cmd::Unexpected(e) => {
                let reply = prefixed_message(e);
                let _ = self.stream.write_err(reply.as_slice());
                MasterStep::Progress(Vec::new())
            },
            Cmd::Ping(c) => {
                let _ = c.execute(&mut self.stream);
                proof {
                    assert(self.out_bytes() == old(self).out_bytes() + enc_line(43, pong_text()));
                }
                MasterStep::Progress(Vec::new())
            },
            Cmd::Echo(c) => {
                let _ = c.execute(&mut self.stream);
                proof {
                    assert(self.out_bytes() == old(self).out_bytes() + spec_encode(c.0@));
                }
                MasterStep::Progress(Vec::new())
            },
            Cmd::Info(c) => {
                let _ = c.execute(&mut self.stream, info);
                proof {
                    assert(self.out_bytes() == old(self).out_bytes() + enc_bulk(
                        36,
                        spec_info_payload(
                            info.spec_role(),
                            info.spec_replid(),
                            info.spec_offset() as int,
                        ),
                    ));
                }
                MasterStep::Progress(Vec::new())
            },
            Cmd::Get(c) => {
                let ghost key = c.0@;
                let t = c.execute(&mut self.stream, db, now_ms);
                proof {
                    assert(db_get_effect(*old(db), *db, key, now_ms));
                    assert(self.out_bytes() == old(self).out_bytes() + spec_get_reply(
                        old(db).spec_lookup(key),
                        now_ms,
                    ));
                }
                match t {
                    Transaction::Write => {
                        // a lazily expired key is local bookkeeping,
                        // not a replicated write
                        MasterStep::Progress(Vec::new())
                    },
                    _ => MasterStep::Progress(Vec::new()),
                }
            },
            Cmd::SetOp(c) => {
                let ghost sv = c.0@;
                let t = c.execute(&mut self.stream, db, now_ms);
                proof {
                    assert(db_set_effect(*old(db), *db, sv, now_ms));
                    assert(self.out_bytes() == old(self).out_bytes() + spec_set_reply(
                        sv,
                        old(db).spec_lookup(sv.key),
                    ));
                }
                match t {
                    Transaction::Write => {
                        let deltas = hist.add_write(raw.as_slice());
                        proof {
                            assert(hist_write_effect(*old(hist), *hist, raw@));
                            assert(deltas_match(deltas@, *old(hist), *hist));
                        }
                        MasterStep::Progress(deltas)
                    },
                    _ => MasterStep::Progress(Vec::new()),
                }
            },
            Cmd::ReplConf(c) => {
                match &c.0 {
                    ReplconfArguments::ListeningPort(_) => {
                        let ghost s0 = old(self).stream_read_bytes();
                        let ghost mark0 = old(self).stream_read_mark();
                        let ghost p = spec_parse(s0, mark0)->Done_1;
                        let ghost rid = info.spec_replid();
                        let ghost off = info.spec_offset() as int;
                        proof {
                            crate::resp::lemma_parse_bounds(s0, mark0);
                        }
                        let mut hs = ReplServerProtocol::new();
                        let status = hs.start(&mut self.stream, info, rdb);
                        proof {
                            // after a drained read the buffer was reset; the
                            // acceptor run over the reset buffer and the run
                            // over the original bytes at the frame end agree
                            // on everything but the raw position
                            if p == s0.len() {
                                assert(spec_parse(s0, p) == ParseStep::Fail(
                                    crate::resp::ParseError::UnexpectedEndOfInput,
                                ));
                                assert(spec_parse(Seq::<u8>::empty(), 0) == ParseStep::Fail(
                                    crate::resp::ParseError::UnexpectedEndOfInput,
                                ));
                                let inner_s = spec_acceptor_run(
                                    ReplServerState::ReceivedListeningPort,
                                    true,
                                    s0,
                                    p,
                                    rid,
                                    off,
                                    rdb@,
                                );
                                let inner_e = spec_acceptor_run(
                                    ReplServerState::ReceivedListeningPort,
                                    true,
                                    Seq::<u8>::empty(),
                                    0,
                                    rid,
                                    off,
                                    rdb@,
                                );
                                assert(inner_s == AcceptorRun {
                                    out: Seq::<u8>::empty(),
                                    pos: p,
                                    state: ReplServerState::ReceivedListeningPort,
                                    sent: true,
                                    status: HandshakeStatus::NeedInput,
                                });
                                assert(inner_e == AcceptorRun {
                                    out: Seq::<u8>::empty(),
                                    pos: 0,
                                    state: ReplServerState::ReceivedListeningPort,
                                    sent: true,
                                    status: HandshakeStatus::NeedInput,
                                });
                                let run_s = spec_acceptor_run(
                                    ReplServerState::ReceivedListeningPort,
                                    false,
                                    s0,
                                    p,
                                    rid,
                                    off,
                                    rdb@,
                                );
                                let run_e = spec_acceptor_run(
                                    ReplServerState::ReceivedListeningPort,
                                    false,
                                    Seq::<u8>::empty(),
                                    0,
                                    rid,
                                    off,
                                    rdb@,
                                );
                                assert(run_s == crate::protocol::acceptor_prepend(
                                    crate::resp::enc_line(43, crate::command::ok_text()),
                                    inner_s,
                                ));
                                assert(run_e == crate::protocol::acceptor_prepend(
                                    crate::resp::enc_line(43, crate::command::ok_text()),
                                    inner_e,
                                ));
                                assert(run_s.out == run_e.out);
                                assert(run_s.state == run_e.state);
                                assert(run_s.sent == run_e.sent);
                                assert(run_s.status == run_e.status);
                                assert(run_s.pos == p);
                                assert(run_e.pos == 0);
                            }
                        }
                        match status {
                            HandshakeStatus::NeedInput => {
                                self.handshake = Some(hs);
                                MasterStep::NeedInput
                            },
                            HandshakeStatus::Done => MasterStep::Replicate,
                            HandshakeStatus::Failed => MasterStep::Fatal(Error::ConnectionClosed),
                        }
                    },
                    _ => {
                        let _ = c.execute(&mut self.stream, info);
                        MasterStep::Progress(Vec::new())
                    },
                }
            },
        }
    }

    /// One replica-inbound step: a forwarded command is executed silently
    /// (the write gate closes around it), REPLCONF stays answered, and the
    /// observed master offset advances by the consumed byte count,
    /// saturating at the largest representable offset.
    pub fn replica_exec_step(
        &mut self,
        db: &mut Database,
        info: &mut ServerInfo,
        now_ms: u64,
    ) -> (r: ReplicaStep)
        requires
            old(self).inv(),
            old(db).inv(),
        ensures
            final(self).inv(),
            final(db).inv(),
            match r {
                ReplicaStep::Progress(count) => {
                    let c: int = if count > i64::MAX {
                        i64::MAX as int
                    } else {
                        count as int
                    };
                    &&& final(info).spec_offset() == if old(info).spec_offset() + c <= i64::MAX {
                        old(info).spec_offset() + c
                    } else {
                        i64::MAX as int
                    }
                    &&& final(info).spec_role() == old(info).spec_role()
                    &&& final(info).spec_replid() == old(info).spec_replid()
                    &&& final(info).spec_host() == old(info).spec_host()
                },
                _ => *final(info) == *old(info),
            },
            ({
                let s = old(self).stream_read_bytes();
                let mark = old(self).stream_read_mark();
                match spec_parse(s, mark) {
                    ParseStep::Fail(crate::resp::ParseError::UnexpectedEndOfInput) => {
                        &&& r is NeedInput
                        &&& final(self).out_bytes() == old(self).out_bytes()
                        &&& db_unchanged(*old(db), *final(db))
                    },
                    ParseStep::Fail(k) => {
                        &&& r == ReplicaStep::Fatal(Error::ParseError(k))
                        &&& final(self).out_bytes() == old(self).out_bytes() + enc_line(
                            45,
                            protocol_error_text(),
                        )
                        &&& db_unchanged(*old(db), *final(db))
                    },
                    ParseStep::Done(v, p) => {
                        &&& r matches ReplicaStep::Progress(count) && count as int == p - mark
                        &&& read_run_state(s, p, final(self).stream_of())
                        &&& match spec_parse_cmd(v) {
                            Result::Err(e) => final(self).out_bytes() == old(self).out_bytes()
                                + enc_line(45, err_prefix() + spec_message(e)) && db_unchanged(
                                *old(db),
                                *final(db),
                            ),
                            Result::Ok(CmdArgVal::Replconf(rv)) => db_unchanged(
                                *old(db),
                                *final(db),
                            ) && final(self).out_bytes() == old(self).out_bytes() + match rv {
                                ReplVal::GetAck(_) => spec_encode(
                                    spec_ack_reply(old(info).spec_offset() as int),
                                ),
                                ReplVal::Capa(_) => enc_line(
                                    45,
                                    err_prefix() + spec_message(
                                        crate::arguments::ArgError::UnsupportedProtocol,
                                    ),
                                ),
                                ReplVal::ListeningPort(_) => Seq::<u8>::empty(),
                            },
                            Result::Ok(CmdArgVal::SetOp(sv)) => final(self).out_bytes() == old(self).out_bytes() && db_set_effect(*old(db), *final(db), sv, now_ms),
                            Result::Ok(CmdArgVal::Get(key)) => final(self).out_bytes() == old(self).out_bytes() && db_get_effect(*old(db), *final(db), key, now_ms),
                            _ => final(self).out_bytes() == old(self).out_bytes() && db_unchanged(
                                *old(db),
                                *final(db),
                            ),
                        }
                    },
                }
            }),
    {
        let msg = match self.stream.try_read_message() {
            Ok(Some(m)) => m,
            Ok(None) => {
                return ReplicaStep::NeedInput;
            },
            Err(e) => {
                proof {
                    assert(self.out_bytes() =~= old(self).out_bytes() + enc_line(
                        45,
                        protocol_error_text(),
                    ));
                }
                return ReplicaStep::Fatal(e);
            },
        };
        let (value, count, _raw) = msg;
        let cmd = CmdParser::parse(&value);
        match cmd {
            Cmd::Unexpected(e) => {
                let reply = prefixed_message(e);
                let _ = self.stream.write_err(reply.as_slice());
            },
            Cmd::ReplConf(c) => {
                let _ = c.execute(&mut self.stream, info);
                proof {
                    if c.0@ is ListeningPort {
                        assert(self.out_bytes() =~= old(self).out_bytes() + Seq::<u8>::empty());
                    }
                }
            },
            Cmd::Ping(c) => {
                self.stream.close_write();
                let _ = c.execute(&mut self.stream);
                self.stream.open_write();
                proof {
                    assert(self.out_bytes() =~= old(self).out_bytes());
                }
            },
            Cmd::Echo(c) => {
                self.stream.close_write();
                let _ = c.execute(&mut self.stream);
                self.stream.open_write();
                proof {
                    assert(self.out_bytes() =~= old(self).out_bytes());
                }
            },
            Cmd::Info(c) => {
                self.stream.close_write();
                let _ = c.execute(&mut self.stream, info);
                self.stream.open_write();
                proof {
                    assert(self.out_bytes() =~= old(self).out_bytes());
                }
            },
            Cmd::Get(c) => {
                self.stream.close_write();
                let _ = c.execute(&mut self.stream, db, now_ms);
                self.stream.open_write();
                proof {
                    assert(self.out_bytes() =~= old(self).out_bytes());
                }
            },
            Cmd::SetOp(c) => {
                self.stream.close_write();
                let _ = c.execute(&mut self.stream, db, now_ms);
                self.stream.open_write();
                proof {
                    assert(self.out_bytes() =~= old(self).out_bytes());
                }
            },
        }
        // advance the observed offset by what this command consumed
        let off = info.get_master_repl_offset();
        let c64: i64 = if count > 0x7fff_ffff_ffff_ffffu64 {
            i64::MAX
        } else {
            count as i64
        };
        if off <= i64::MAX - c64 {
            info.incr_master_repl_offset(c64);
        } else {
            info.set_master_repl_offset(i64::MAX);
        }
        ReplicaStep::Progress(count)
    }

    /// One step of the restricted loop a replica offers ordinary clients:
    /// INFO answers and ends the session, GET answers, anything else is
    /// turned away.
    pub fn handle_limited_step(
        &mut self,
        db: &mut Database,
        info: &ServerInfo,
        now_ms: u64,
    ) -> (r: LimitedStep)
        requires
            old(self).inv(),
            old(db).inv(),
        ensures
            final(self).inv(),
            final(db).inv(),
            ({
                let s = old(self).stream_read_bytes();
                let mark = old(self).stream_read_mark();
                match spec_parse(s, mark) {
                    ParseStep::Fail(crate::resp::ParseError::UnexpectedEndOfInput) => {
                        &&& r is NeedInput
                        &&& final(self).out_bytes() == old(self).out_bytes()
                        &&& db_unchanged(*old(db), *final(db))
                    },
                    ParseStep::Fail(k) => {
                        &&& r == LimitedStep::Fatal(Error::ParseError(k))
                        &&& final(self).out_bytes() == old(self).out_bytes() + enc_line(
                            45,
                            protocol_error_text(),
                        )
                        &&& db_unchanged(*old(db), *final(db))
                    },
                    ParseStep::Done(v, p) => {
                        &&& read_run_state(s, p, final(self).stream_of())
                        &&& match spec_parse_cmd(v) {
                            Result::Ok(CmdArgVal::Info) => {
                                &&& r is Stop
                                &&& final(self).out_bytes() == old(self).out_bytes() + enc_bulk(
                                    36,
                                    spec_info_payload(
                                        info.spec_role(),
                                        info.spec_replid(),
                                        info.spec_offset() as int,
                                    ),
                                )
                                &&& db_unchanged(*old(db), *final(db))
                            },
                            Result::Ok(CmdArgVal::Get(key)) => {
                                &&& r is Progress
                                &&& final(self).out_bytes() == old(self).out_bytes()
                                    + spec_get_reply(old(db).spec_lookup(key), now_ms)
                                &&& db_get_effect(*old(db), *final(db), key, now_ms)
                            },
                            _ => {
                                &&& r is Stop
                                &&& final(self).out_bytes() == old(self).out_bytes() + enc_line(
                                    45,
                                    err_prefix() + spec_message(ArgError::ReplicaDirect),
                                )
                                &&& db_unchanged(*old(db), *final(db))
                            },
                        }
                    },
                }
            }),
    {
        let msg = match self.stream.try_read_message() {
            Ok(Some(m)) => m,
            Ok(None) => {
                return LimitedStep::NeedInput;
            },
            Err(e) => {
                proof {
                    assert(self.out_bytes() =~= old(self).out_bytes() + enc_line(
                        45,
                        protocol_error_text(),
                    ));
                }
                return LimitedStep::Fatal(e);
            },
        };
        let (value, _count, _raw) = msg;
        let cmd = CmdParser::parse(&value);
        match cmd {
            Cmd::Info(c) => {
                let _ = c.execute(&mut self.stream, info);
                LimitedStep::Stop
            },
            Cmd::Get(c) => {
                let _ = c.execute(&mut self.stream, db, now_ms);
                LimitedStep::Progress
            },
            _ => {
                let reply = prefixed_message(ArgError::ReplicaDirect);
                let _ = self.stream.write_err(reply.as_slice());
                LimitedStep::Stop
            },
        }
    }
}

} // verus!
