//! The two handshake state machines that turn a plain connection into a
//! replication link: the replica side initiates with PING, REPLCONF and
//! PSYNC; the master side answers, announces the full resync and sends the
//! snapshot. Both are explicit (state, event) tables; the step drivers run
//! them over a framed connection until they need more bytes, finish, or
//! fail.
use vstd::prelude::*;

use crate::arguments::spec_get_from;
use crate::command::{fullresync_word, ok_text, pong_text};
use crate::connection::Connection;
use crate::internals::ReplVal;
use crate::resp::{Resp, RespVal};
use crate::server::ServerInfo;
use crate::text::{check_utf8, is_utf8, parse_i64_text, spec_parse_i64};

verus! {

/// Replica-side (initiator) states.
#[derive(Debug, Clone, Copy, PartialEq, Eq, Structural)]
pub enum ReplClientState {
    Initial,
    Ping,
    NotifyListeningPort,
    NotifyCapabilities,
    RequestPsync,
    FullResync,
    ReplicationStart,
    ProtocolError,
}

/// Events the initiator reacts to.
#[derive(Debug, Clone, Copy, PartialEq, Eq, Structural)]
pub enum ReplicationEvents {
    Start,
    ReceivedPong,
    ReceivedOk,
    ReceivedFullResync,
    ReceivedRdb,
    ReceivedAck,
    ProtocolError,
}

/// The initiator's transition table.
pub open spec fn spec_client_step(s: ReplClientState, e: ReplicationEvents) -> ReplClientState {
    match (s, e) {
        (ReplClientState::Initial, ReplicationEvents::Start) => ReplClientState::Ping,
        (ReplClientState::Ping, ReplicationEvents::ReceivedPong) => ReplClientState::NotifyListeningPort,
        (
            ReplClientState::NotifyListeningPort,
            ReplicationEvents::ReceivedOk,
        ) => ReplClientState::NotifyCapabilities,
        (ReplClientState::NotifyCapabilities, ReplicationEvents::ReceivedOk) => ReplClientState::RequestPsync,
        (ReplClientState::RequestPsync, ReplicationEvents::ReceivedFullResync) => ReplClientState::FullResync,
        (ReplClientState::FullResync, ReplicationEvents::ReceivedRdb) => ReplClientState::ReplicationStart,
        (ReplClientState::ReplicationStart, ReplicationEvents::ReceivedAck) => ReplClientState::ReplicationStart,
        (_, _) => ReplClientState::ProtocolError,
    }
}

impl ReplClientState {
    pub fn handle_event(&self, event: ReplicationEvents) -> (r: ReplClientState)
        ensures
            r == spec_client_step(*self, event),
    {
        match (self, event) {
            (ReplClientState::Initial, ReplicationEvents::Start) => ReplClientState::Ping,
            (
                ReplClientState::Ping,
                ReplicationEvents::ReceivedPong,
            ) => ReplClientState::NotifyListeningPort,
            (
                ReplClientState::NotifyListeningPort,
                ReplicationEvents::ReceivedOk,
            ) => ReplClientState::NotifyCapabilities,
            (
                ReplClientState::NotifyCapabilities,
                ReplicationEvents::ReceivedOk,
            ) => ReplClientState::RequestPsync,
            (
                ReplClientState::RequestPsync,
                ReplicationEvents::ReceivedFullResync,
            ) => ReplClientState::FullResync,
            (
                ReplClientState::FullResync,
                ReplicationEvents::ReceivedRdb,
            ) => ReplClientState::ReplicationStart,
            (
                ReplClientState::ReplicationStart,
                ReplicationEvents::ReceivedAck,
            ) => ReplClientState::ReplicationStart,
            (_, _) => ReplClientState::ProtocolError,
        }
    }
}

/// Master-side (acceptor) states.
#[derive(Debug, Clone, Copy, PartialEq, Eq, Structural)]
pub enum ReplServerState {
    ReceivedListeningPort,
    ReceivedCapabilities,
    ReceivedPsync,
    SentFullResync,
    SentRdb,
    ReplicationComplete,
    ProtocolError,
}

/// Events the acceptor reacts to.
#[derive(Debug, Clone, Copy, PartialEq, Eq, Structural)]
pub enum ReplServerEvents {
    SentResponse,
    NotifyCapabilities,
    NotifyPsync,
    Done,
    ProtocolError,
}

/// The acceptor's transition table.
pub open spec fn spec_server_step(s: ReplServerState, e: ReplServerEvents) -> ReplServerState {
    match (s, e) {
        (
            ReplServerState::ReceivedListeningPort,
            ReplServerEvents::NotifyCapabilities,
        ) => ReplServerState::ReceivedCapabilities,
        (
            ReplServerState::ReceivedCapabilities,
            ReplServerEvents::NotifyPsync,
        ) => ReplServerState::ReceivedPsync,
        (ReplServerState::ReceivedPsync, ReplServerEvents::SentResponse) => ReplServerState::SentFullResync,
        (ReplServerState::SentFullResync, ReplServerEvents::SentResponse) => ReplServerState::SentRdb,
        (ReplServerState::SentRdb, ReplServerEvents::Done) => ReplServerState::ReplicationComplete,
        (_, _) => ReplServerState::ProtocolError,
    }
}

impl ReplServerState {
    pub fn handle_event(&self, event: ReplServerEvents) -> (r: ReplServerState)
        ensures
            r == spec_server_step(*self, event),
    {
        match (self, event) {
            (
                ReplServerState::ReceivedListeningPort,
                ReplServerEvents::NotifyCapabilities,
            ) => ReplServerState::ReceivedCapabilities,
            (
                ReplServerState::ReceivedCapabilities,
                ReplServerEvents::NotifyPsync,
            ) => ReplServerState::ReceivedPsync,
            (
                ReplServerState::ReceivedPsync,
                ReplServerEvents::SentResponse,
            ) => ReplServerState::SentFullResync,
            (
                ReplServerState::SentFullResync,
                ReplServerEvents::SentResponse,
            ) => ReplServerState::SentRdb,
            (
                ReplServerState::SentRdb,
                ReplServerEvents::Done,
            ) => ReplServerState::ReplicationComplete,
            (_, _) => ReplServerState::ProtocolError,
        }
    }
}

/// What one driver call came to.
#[derive(Debug, Clone, Copy, PartialEq, Eq, Structural)]
pub enum HandshakeStatus {
    NeedInput,
    Done,
    Failed,
}

// ---------------------------------------------------------------------------
// Response classification on the initiator side
// ---------------------------------------------------------------------------

/// A `+PONG` reply, and nothing else, answers the ping.
pub open spec fn spec_expect_pong(v: RespVal) -> ReplicationEvents {
    if v == RespVal::SimpleString(pong_text()) {
        ReplicationEvents::ReceivedPong
    } else {
        ReplicationEvents::ProtocolError
    }
}

pub fn expect_pong(resp: &Resp) -> (r: ReplicationEvents)
    ensures
        r == spec_expect_pong(resp@),
{
    match resp {
        Resp::SimpleString(s) => {
            let pong: Vec<u8> = vec![80u8, 79, 78, 71];
            proof {
                assert(pong@ =~= pong_text());
            }
            if crate::database::bytes_eq(s, &pong) {
                ReplicationEvents::ReceivedPong
            } else {
                ReplicationEvents::ProtocolError
            }
        },
        _ => ReplicationEvents::ProtocolError,
    }
}

/// A `+OK` reply, and nothing else, acknowledges a REPLCONF.
pub open spec fn spec_expect_ok(v: RespVal) -> ReplicationEvents {
    if v == RespVal::SimpleString(ok_text()) {
        ReplicationEvents::ReceivedOk
    } else {
        ReplicationEvents::ProtocolError
    }
}

pub fn expect_ok(resp: &Resp) -> (r: ReplicationEvents)
    ensures
        r == spec_expect_ok(resp@),
{
    match resp {
        Resp::SimpleString(s) => {
            let ok: Vec<u8> = vec![79u8, 75];
            proof {
                assert(ok@ =~= ok_text());
            }
            if crate::database::bytes_eq(s, &ok) {
                ReplicationEvents::ReceivedOk
            } else {
                ReplicationEvents::ProtocolError
            }
        },
        _ => ReplicationEvents::ProtocolError,
    }
}

pub open spec fn first_space_from(s: Seq<u8>, i: int) -> int
    decreases s.len() - i,
{
    if 0 <= i && i < s.len() && s[i] != 32 {
        first_space_from(s, i + 1)
    } else {
        i
    }
}

proof fn lemma_first_space_from(s: Seq<u8>, i: int)
    requires
        0 <= i <= s.len(),
    ensures
        i <= first_space_from(s, i) <= s.len(),
        first_space_from(s, i) < s.len() ==> s[first_space_from(s, i)] == 32,
    decreases s.len() - i,
{
    if i < s.len() && s[i] != 32 {
        lemma_first_space_from(s, i + 1);
    }
}

fn first_space(s: &[u8], from: usize) -> (r: usize)
    requires
        from <= s@.len(),
    ensures
        r == first_space_from(s@, from as int),
        from <= r <= s@.len(),
{
    let n = s.len();
    let mut i = from;
    while i < n && s[i] != 32
        invariant
            from <= i <= n,
            n == s@.len(),
            first_space_from(s@, from as int) == first_space_from(s@, i as int),
        decreases n - i,
    {
        i += 1;
    }
    proof {
        lemma_first_space_from(s@, i as int);
    }
    i
}

/// The three space-separated parts of a full-resync announcement, when it
/// has exactly this shape: the word FULLRESYNC, the id, and the offset.
pub open spec fn spec_full_resync_parts(b: Seq<u8>) -> Option<(Seq<u8>, Seq<u8>)> {
    let p1 = first_space_from(b, 0);
    if p1 >= b.len() {
        Option::None
    } else {
        let p2 = first_space_from(b, p1 + 1);
        if p2 >= b.len() {
            Option::None
        } else {
            let p3 = first_space_from(b, p2 + 1);
            if p3 < b.len() {
                Option::None
            } else if b.subrange(0, p1) == fullresync_word() {
                Option::Some((b.subrange(p1 + 1, p2), b.subrange(p2 + 1, b.len() as int)))
            } else {
                Option::None
            }
        }
    }
}

/// What a full-resync reply teaches, when it is a well-formed bulk
/// `FULLRESYNC <id> <offset>`: the id and the parsed offset.
pub open spec fn spec_full_resync_update(v: RespVal) -> Option<(Seq<u8>, int)> {
    match v {
        RespVal::BulkString(b) => if is_utf8(b) {
            match spec_full_resync_parts(b) {
                Option::Some(parts) => match spec_parse_i64(parts.1) {
                    Option::Some(o) => Option::Some((parts.0, o as int)),
                    Option::None => Option::None,
                },
                Option::None => Option::None,
            }
        } else {
            Option::None
        },
        _ => Option::None,
    }
}

/// The event a full-resync reply produces, and what it teaches the server
/// info: a bulk `FULLRESYNC <id> <offset>` stores the id and the parsed
/// offset; everything else is a protocol error and changes nothing.
pub fn expect_full_resync(resp: &Resp, info: &mut ServerInfo) -> (r: ReplicationEvents)
    ensures
        final(info).spec_role() == old(info).spec_role(),
        final(info).spec_host() == old(info).spec_host(),
        match spec_full_resync_update(resp@) {
            Option::Some(upd) => {
                &&& r == ReplicationEvents::ReceivedFullResync
                &&& final(info).spec_replid() == upd.0
                &&& final(info).spec_offset() == upd.1
            },
            Option::None => r == ReplicationEvents::ProtocolError && *final(info) == *old(info),
        },
{
    match resp {
        Resp::BulkString(b) => {
            if !check_utf8(b.as_slice()) {
                return ReplicationEvents::ProtocolError;
            }
            let s = b.as_slice();
            let n = s.len();
            let p1 = first_space(s, 0);
            if p1 >= n {
                return ReplicationEvents::ProtocolError;
            }
            let p2 = first_space(s, p1 + 1);
            if p2 >= n {
                return ReplicationEvents::ProtocolError;
            }
            let p3 = first_space(s, p2 + 1);
            if p3 < n {
                return ReplicationEvents::ProtocolError;
            }
            let word = crate::resp::copy_range(s, 0, p1);
            let fr: Vec<u8> = vec![70u8, 85, 76, 76, 82, 69, 83, 89, 78, 67];
            proof {
                assert(fr@ =~= fullresync_word());
            }
            if !crate::database::bytes_eq(&word, &fr) {
                return ReplicationEvents::ProtocolError;
            }
            let id = crate::resp::copy_range(s, p1 + 1, p2);
            let offt = crate::resp::copy_range(s, p2 + 1, n);
            match parse_i64_text(offt.as_slice()) {
                Some(o) => {
                    info.set_master_replid(id);
                    info.set_master_repl_offset(o);
                    ReplicationEvents::ReceivedFullResync
                },
                None => ReplicationEvents::ProtocolError,
            }
        },
        _ => ReplicationEvents::ProtocolError,
    }
}

// ---------------------------------------------------------------------------
// Inbound classification on the acceptor side
// ---------------------------------------------------------------------------

pub open spec fn psync2_text() -> Seq<u8> {
    seq![112u8, 115, 121, 110, 99, 50]
}

/// Only `REPLCONF capa psync2` moves the acceptor on.
pub open spec fn spec_expect_capabilities(v: RespVal) -> ReplServerEvents {
    match v {
        RespVal::Array(vs) => match spec_get_from(vs) {
            Result::Ok(crate::arguments::CmdArgVal::Replconf(rv)) => match rv {
                ReplVal::Capa(c) => if c == psync2_text() {
                    ReplServerEvents::NotifyCapabilities
                } else {
                    ReplServerEvents::ProtocolError
                },
                _ => ReplServerEvents::ProtocolError,
            },
            _ => ReplServerEvents::ProtocolError,
        },
        _ => ReplServerEvents::ProtocolError,
    }
}

pub fn expect_capabilities(msg: &Resp) -> (r: ReplServerEvents)
    ensures
        r == spec_expect_capabilities(msg@),
{
    match msg {
        Resp::Array(args) => {
            match crate::arguments::ArgumentParser::get_from(args) {
                Ok(crate::arguments::CommandArgument::Replconf(rv)) => match rv {
                    crate::internals::ReplconfArguments::Capa(c) => {
                        let p2: Vec<u8> = vec![112u8, 115, 121, 110, 99, 50];
                        proof {
                            assert(p2@ =~= psync2_text());
                        }
                        if crate::database::bytes_eq(&c, &p2) {
                            ReplServerEvents::NotifyCapabilities
                        } else {
                            ReplServerEvents::ProtocolError
                        }
                    },
                    _ => ReplServerEvents::ProtocolError,
                },
                _ => ReplServerEvents::ProtocolError,
            }
        },
        _ => ReplServerEvents::ProtocolError,
    }
}

/// Any well-formed PSYNC request moves the acceptor on.
pub open spec fn spec_expect_psync(v: RespVal) -> ReplServerEvents {
    match v {
        RespVal::Array(vs) => match spec_get_from(vs) {
            Result::Ok(crate::arguments::CmdArgVal::Psync(_)) => ReplServerEvents::NotifyPsync,
            _ => ReplServerEvents::ProtocolError,
        },
        _ => ReplServerEvents::ProtocolError,
    }
}

pub fn expect_psync(msg: &Resp) -> (r: ReplServerEvents)
    ensures
        r == spec_expect_psync(msg@),
{
    match msg {
        Resp::Array(args) => {
            match crate::arguments::ArgumentParser::get_from(args) {
                Ok(crate::arguments::CommandArgument::Psync(_)) => ReplServerEvents::NotifyPsync,
                _ => ReplServerEvents::ProtocolError,
            }
        },
        _ => ReplServerEvents::ProtocolError,
    }
}

} // verus!

verus! {

pub open spec fn client_rank(s: ReplClientState) -> int {
    match s {
        ReplClientState::Initial => 8,
        ReplClientState::Ping => 7,
        ReplClientState::NotifyListeningPort => 6,
        ReplClientState::NotifyCapabilities => 5,
        ReplClientState::RequestPsync => 4,
        ReplClientState::FullResync => 3,
        ReplClientState::ReplicationStart => 2,
        ReplClientState::ProtocolError => 1,
    }
}


pub open spec fn listening_port_arg_text() -> Seq<u8> {
    seq![108u8, 105, 115, 116, 101, 110, 105, 110, 103, 45, 112, 111, 114, 116]
}

pub open spec fn capa_arg_text() -> Seq<u8> {
    seq![99u8, 97, 112, 97]
}

/// Everything one initiator driver call does, as a function of the state,
/// the buffered replies and the server info: the requests it queues, the
/// position up to which it consumes input, the state and send-flag it
/// leaves, the replication id and offset it has learned, and the status it
/// returns.
pub ghost struct InitiatorRun {
    pub out: Seq<u8>,
    pub pos: int,
    pub state: ReplClientState,
    pub sent: bool,
    pub replid: Seq<u8>,
    pub offset: int,
    pub status: HandshakeStatus,
}

pub open spec fn initiator_prepend(prefix: Seq<u8>, r: InitiatorRun) -> InitiatorRun {
    InitiatorRun {
        out: prefix + r.out,
        pos: r.pos,
        state: r.state,
        sent: r.sent,
        replid: r.replid,
        offset: r.offset,
        status: r.status,
    }
}

/// One awaiting state of the initiator: the reply frame is classified into
/// an event when whole; truncation asks for input; a malformed frame
/// carries the connection's protocol-error reply and fails.
pub open spec fn spec_initiator_await(
    state: ReplClientState,
    s: Seq<u8>,
    pos: int,
    port: Seq<u8>,
    replid: Seq<u8>,
    offset: int,
    ev_of: spec_fn(RespVal) -> ReplicationEvents,
) -> InitiatorRun
    decreases client_rank(state) * 2, 0int,
    when state == ReplClientState::Ping || state == ReplClientState::NotifyListeningPort || state
        == ReplClientState::NotifyCapabilities
{
    match crate::resp::spec_parse(s, pos) {
        crate::resp::ParseStep::Done(v, p) => spec_initiator_run(
            spec_client_step(state, ev_of(v)),
            false,
            s,
            p,
            port,
            replid,
            offset,
        ),
        crate::resp::ParseStep::Fail(crate::resp::ParseError::UnexpectedEndOfInput) => InitiatorRun {
            out: Seq::<u8>::empty(),
            pos,
            state,
            sent: true,
            replid,
            offset,
            status: HandshakeStatus::NeedInput,
        },
        crate::resp::ParseStep::Fail(_) => InitiatorRun {
            out: crate::resp::enc_line(45, crate::connection::protocol_error_text()),
            pos,
            state: ReplClientState::ProtocolError,
            sent: false,
            replid,
            offset,
            status: HandshakeStatus::Failed,
        },
    }
}

/// The initiator, interpreted over the buffered replies: each awaiting
/// state queues its request once, the replies drive the transition table,
/// the full-resync reply teaches the id and the offset, and the snapshot
/// transfer completes the bootstrap.
pub open spec fn spec_initiator_run(
    state: ReplClientState,
    sent: bool,
    s: Seq<u8>,
    pos: int,
    port: Seq<u8>,
    replid: Seq<u8>,
    offset: int,
) -> InitiatorRun
    decreases client_rank(state) * 2 + (if sent {
        0int
    } else {
        1int
    }), 1int,
{
    match state {
        ReplClientState::Initial => spec_initiator_run(
            ReplClientState::Ping,
            sent,
            s,
            pos,
            port,
            replid,
            offset,
        ),
        ReplClientState::Ping => {
            if !sent {
                initiator_prepend(
                    crate::resp::spec_encode(
                        crate::client::spec_request_v(
                            crate::client::ping_word(),
                            Seq::<Seq<u8>>::empty(),
                        ),
                    ),
                    spec_initiator_run(state, true, s, pos, port, replid, offset),
                )
            } else {
                spec_initiator_await(
                    state,
                    s,
                    pos,
                    port,
                    replid,
                    offset,
                    |v: RespVal| spec_expect_pong(v),
                )
            }
        },
        ReplClientState::NotifyListeningPort => {
            if !sent {
                initiator_prepend(
                    crate::resp::spec_encode(
                        crate::client::spec_request_v(
                            crate::client::replconf_word(),
                            seq![listening_port_arg_text(), port],
                        ),
                    ),
                    spec_initiator_run(state, true, s, pos, port, replid, offset),
                )
            } else {
                spec_initiator_await(
                    state,
                    s,
                    pos,
                    port,
                    replid,
                    offset,
                    |v: RespVal| spec_expect_ok(v),
                )
            }
        },
        ReplClientState::NotifyCapabilities => {
            if !sent {
                initiator_prepend(
                    crate::resp::spec_encode(
                        crate::client::spec_request_v(
                            crate::client::replconf_word(),
                            seq![capa_arg_text(), psync2_text()],
                        ),
                    ),
                    spec_initiator_run(state, true, s, pos, port, replid, offset),
                )
            } else {
                spec_initiator_await(
                    state,
                    s,
                    pos,
                    port,
                    replid,
                    offset,
                    |v: RespVal| spec_expect_ok(v),
                )
            }
        },
        ReplClientState::RequestPsync => {
            if !sent {
                initiator_prepend(
                    crate::resp::spec_encode(
                        crate::client::spec_request_v(
                            crate::client::psync_word(),
                            seq![replid, crate::text::spec_idec(offset)],
                        ),
                    ),
                    spec_initiator_run(state, true, s, pos, port, replid, offset),
                )
            } else {
                match crate::resp::spec_parse(s, pos) {
                    crate::resp::ParseStep::Done(v, p) => match spec_full_resync_update(v) {
                        Option::Some(upd) => spec_initiator_run(
                            ReplClientState::FullResync,
                            false,
                            s,
                            p,
                            port,
                            upd.0,
                            upd.1,
                        ),
                        Option::None => spec_initiator_run(
                            ReplClientState::ProtocolError,
                            false,
                            s,
                            p,
                            port,
                            replid,
                            offset,
                        ),
                    },
                    crate::resp::ParseStep::Fail(
                        crate::resp::ParseError::UnexpectedEndOfInput,
                    ) => InitiatorRun {
                        out: Seq::<u8>::empty(),
                        pos,
                        state,
                        sent: true,
                        replid,
                        offset,
                        status: HandshakeStatus::NeedInput,
                    },
                    crate::resp::ParseStep::Fail(_) => InitiatorRun {
                        out: crate::resp::enc_line(
                            45,
                            crate::connection::protocol_error_text(),
                        ),
                        pos,
                        state: ReplClientState::ProtocolError,
                        sent: false,
                        replid,
                        offset,
                        status: HandshakeStatus::Failed,
                    },
                }
            }
        },
        ReplClientState::FullResync => {
            match crate::connection::spec_rdb(s, pos) {
                crate::connection::RdbStep::RDone(_, p) => spec_initiator_run(
                    ReplClientState::ReplicationStart,
                    false,
                    s,
                    p,
                    port,
                    replid,
                    offset,
                ),
                crate::connection::RdbStep::RMore => InitiatorRun {
                    out: Seq::<u8>::empty(),
                    pos,
                    state,
                    sent,
                    replid,
                    offset,
                    status: HandshakeStatus::NeedInput,
                },
                crate::connection::RdbStep::RFail(_) => InitiatorRun {
                    out: Seq::<u8>::empty(),
                    pos,
                    state: ReplClientState::ProtocolError,
                    sent: false,
                    replid,
                    offset,
                    status: HandshakeStatus::Failed,
                },
            }
        },
        ReplClientState::ReplicationStart => InitiatorRun {
            out: Seq::<u8>::empty(),
            pos,
            state,
            sent,
            replid,
            offset,
            status: HandshakeStatus::Done,
        },
        ReplClientState::ProtocolError => InitiatorRun {
            out: Seq::<u8>::empty(),
            pos,
            state,
            sent,
            replid,
            offset,
            status: HandshakeStatus::Failed,
        },
    }
}

proof fn lemma_initiator_prepend_compose(a: Seq<u8>, b: Seq<u8>, r: InitiatorRun)
    ensures
        initiator_prepend(a, initiator_prepend(b, r)) == initiator_prepend(a + b, r),
{
    assert(a + (b + r.out) =~= (a + b) + r.out);
}

/// The initiator driver: owns the state and the port it will announce.
pub struct ReplicationProtocol {
    pub state: ReplClientState,
    pub listening_port: Vec<u8>,
    pub sent: bool,
}

impl ReplicationProtocol {
    pub fn new(listening_port: Vec<u8>) -> (r: ReplicationProtocol)
        ensures
            r.state == ReplClientState::Initial,
            r.listening_port@ == listening_port@,
            !r.sent,
    {
        ReplicationProtocol { state: ReplClientState::Initial, listening_port, sent: false }
    }

    pub fn handle_event(&mut self, event: ReplicationEvents)
        ensures
            final(self).state == spec_client_step(old(self).state, event),
            final(self).listening_port@ == old(self).listening_port@,
    {
        self.state = self.state.handle_event(event);
    }

    /// Drive the handshake as far as the buffered input allows: send the
    /// next request once, classify the reply, and move on. `NeedInput`
    /// means the connection wants more bytes from the socket. The whole
    /// call is pinned by `spec_initiator_run` over the state, the buffered
    /// replies and the server info.
    pub fn start(&mut self, conn: &mut Connection, info: &mut ServerInfo) -> (r: HandshakeStatus)
        requires
            old(conn).inv(),
            old(conn).is_writable(),
            old(conn).is_readable(),
        ensures
            final(conn).inv(),
            final(conn).is_writable(),
            final(conn).is_readable(),
            final(self).listening_port@ == old(self).listening_port@,
            final(info).spec_role() == old(info).spec_role(),
            final(info).spec_host() == old(info).spec_host(),
            ({
                let run = spec_initiator_run(
                    old(self).state,
                    old(self).sent,
                    old(conn).read_bytes(),
                    old(conn).read_mark(),
                    old(self).listening_port@,
                    old(info).spec_replid(),
                    old(info).spec_offset() as int,
                );
                &&& r == run.status
                &&& final(self).state == run.state
                &&& final(self).sent == run.sent
                &&& final(info).spec_replid() == run.replid
                &&& final(info).spec_offset() as int == run.offset
                &&& final(conn).out_bytes() == old(conn).out_bytes() + run.out
                &&& crate::connection::read_run_state(
                    old(conn).read_bytes(),
                    run.pos,
                    *final(conn),
                )
            }),
            r == HandshakeStatus::Done ==> final(self).state == ReplClientState::ReplicationStart,
            r == HandshakeStatus::Failed ==> final(self).state == ReplClientState::ProtocolError,
    {
        let ghost st0 = self.state;
        let ghost sent0 = self.sent;
        let ghost s0 = conn.read_bytes();
        let ghost p0 = conn.read_mark();
        let ghost out0 = conn.out_bytes();
        let ghost port0 = self.listening_port@;
        let ghost mut crid: Seq<u8> = info.spec_replid();
        let ghost mut coff: int = info.spec_offset() as int;
        let ghost mut cur: int = p0;
        let ghost mut delta: Seq<u8> = Seq::<u8>::empty();
        proof {
            crate::connection::lemma_conn_inv_bounds(*conn);
            assert(out0 + delta =~= out0);
        }
        loop
            invariant
                conn.inv(),
                conn.is_writable(),
                conn.is_readable(),
                st0 == old(self).state,
                sent0 == old(self).sent,
                s0 == old(conn).read_bytes(),
                p0 == old(conn).read_mark(),
                out0 == old(conn).out_bytes(),
                port0 == old(self).listening_port@,
                self.listening_port@ == port0,
                crid == info.spec_replid(),
                coff == info.spec_offset() as int,
                info.spec_role() == old(info).spec_role(),
                info.spec_host() == old(info).spec_host(),
                0 <= p0 <= s0.len(),
                p0 <= cur <= s0.len(),
                conn.out_bytes() == out0 + delta,
                crate::connection::read_run_state(s0, cur, *conn),
                spec_initiator_run(
                    st0,
                    sent0,
                    s0,
                    p0,
                    port0,
                    old(info).spec_replid(),
                    old(info).spec_offset() as int,
                ) == initiator_prepend(
                    delta,
                    spec_initiator_run(self.state, self.sent, s0, cur, port0, crid, coff),
                ),
            decreases client_rank(self.state) * 2 + (if self.sent {
                0int
            } else {
                1int
            }),
        {
            match self.state {
                ReplClientState::Initial => {
                    self.state = self.state.handle_event(ReplicationEvents::Start);
                },
                ReplClientState::Ping => {
                    if !self.sent {
                        let _ = crate::client::ping(conn);
                        self.sent = true;
                        proof {
                            assert(crate::client::bulk_views(Seq::<Vec<u8>>::empty())
                                =~= crate::client::bulk_views_v(Seq::<Seq<u8>>::empty()));
                            assert(crate::client::spec_request(
                                crate::client::ping_word(),
                                Seq::<Vec<u8>>::empty(),
                            ) == crate::client::spec_request_v(
                                crate::client::ping_word(),
                                Seq::<Seq<u8>>::empty(),
                            ));
                            let req = crate::resp::spec_encode(
                                crate::client::spec_request_v(
                                    crate::client::ping_word(),
                                    Seq::<Seq<u8>>::empty(),
                                ),
                            );
                            lemma_initiator_prepend_compose(
                                delta,
                                req,
                                spec_initiator_run(self.state, true, s0, cur, port0, crid, coff),
                            );
                            delta = delta + req;
                        }
                    } else {
                        proof {
                            assert(spec_initiator_run(
                                ReplClientState::Ping,
                                true,
                                s0,
                                cur,
                                port0,
                                crid,
                                coff,
                            ) == spec_initiator_await(
                                ReplClientState::Ping,
                                s0,
                                cur,
                                port0,
                                crid,
                                coff,
                                |v: RespVal| spec_expect_pong(v),
                            ));
                            if cur == s0.len() {
                                assert(crate::resp::spec_parse(s0, cur)
                                    == crate::resp::ParseStep::Fail(
                                    crate::resp::ParseError::UnexpectedEndOfInput,
                                ));
                                assert(crate::resp::spec_parse(Seq::<u8>::empty(), 0)
                                    == crate::resp::ParseStep::Fail(
                                    crate::resp::ParseError::UnexpectedEndOfInput,
                                ));
                            }
                        }
                        match conn.try_read_message() {
                            Ok(Some((msg, _, _))) => {
                                let ev = expect_pong(&msg);
                                self.state = self.state.handle_event(ev);
                                self.sent = false;
                                proof {
                                    crate::resp::lemma_parse_bounds(s0, cur);
                                    let step = crate::resp::spec_parse(s0, cur);
                                    cur = step->Done_1;
                                }
                            },
                            Ok(None) => {
                                proof {
                                    assert(delta + Seq::<u8>::empty() =~= delta);
                                }
                                return HandshakeStatus::NeedInput;
                            },
                            Err(_) => {
                                self.state = self.state.handle_event(
                                    ReplicationEvents::ProtocolError,
                                );
                                self.sent = false;
                                proof {
                                    lemma_initiator_prepend_compose(
                                        delta,
                                        crate::resp::enc_line(
                                            45,
                                            crate::connection::protocol_error_text(),
                                        ),
                                        spec_initiator_run(
                                            ReplClientState::ProtocolError,
                                            false,
                                            s0,
                                            cur,
                                            port0,
                                            crid,
                                            coff,
                                        ),
                                    );
                                    delta = delta + crate::resp::enc_line(
                                        45,
                                        crate::connection::protocol_error_text(),
                                    );
                                }
                            },
                        }
                    }
                },
                ReplClientState::NotifyListeningPort => {
                    if !self.sent {
                        let mut args: Vec<Vec<u8>> = Vec::new();
                        let lp: Vec<u8> = vec![108u8, 105, 115, 116, 101, 110, 105, 110, 103, 45,
                            112, 111, 114, 116];
                        proof {
                            assert(lp@ =~= listening_port_arg_text());
                        }
                        args.push(lp);
                        args.push(crate::resp::clone_bytes(&self.listening_port));
                        let ghost argsv = args@;
                        let _ = crate::client::repl_conf(conn, args);
                        self.sent = true;
                        proof {
                            assert(crate::client::bulk_views(argsv)
                                =~= crate::client::bulk_views_v(
                                seq![listening_port_arg_text(), port0],
                            ));
                            assert(crate::client::spec_request(
                                crate::client::replconf_word(),
                                argsv,
                            ) == crate::client::spec_request_v(
                                crate::client::replconf_word(),
                                seq![listening_port_arg_text(), port0],
                            ));
                            let req = crate::resp::spec_encode(
                                crate::client::spec_request_v(
                                    crate::client::replconf_word(),
                                    seq![listening_port_arg_text(), port0],
                                ),
                            );
                            lemma_initiator_prepend_compose(
                                delta,
                                req,
                                spec_initiator_run(self.state, true, s0, cur, port0, crid, coff),
                            );
                            delta = delta + req;
                        }
                    } else {
                        proof {
                            assert(spec_initiator_run(
                                ReplClientState::NotifyListeningPort,
                                true,
                                s0,
                                cur,
                                port0,
                                crid,
                                coff,
                            ) == spec_initiator_await(
                                ReplClientState::NotifyListeningPort,
                                s0,
                                cur,
                                port0,
                                crid,
                                coff,
                                |v: RespVal| spec_expect_ok(v),
                            ));
                            if cur == s0.len() {
                                assert(crate::resp::spec_parse(s0, cur)
                                    == crate::resp::ParseStep::Fail(
                                    crate::resp::ParseError::UnexpectedEndOfInput,
                                ));
                                assert(crate::resp::spec_parse(Seq::<u8>::empty(), 0)
                                    == crate::resp::ParseStep::Fail(
                                    crate::resp::ParseError::UnexpectedEndOfInput,
                                ));
                            }
                        }
                        match conn.try_read_message() {
                            Ok(Some((msg, _, _))) => {
                                let ev = expect_ok(&msg);
                                self.state = self.state.handle_event(ev);
                                self.sent = false;
                                proof {
                                    crate::resp::lemma_parse_bounds(s0, cur);
                                    let step = crate::resp::spec_parse(s0, cur);
                                    cur = step->Done_1;
                                }
                            },
                            Ok(None) => {
                                proof {
                                    assert(delta + Seq::<u8>::empty() =~= delta);
                                }
                                return HandshakeStatus::NeedInput;
                            },
                            Err(_) => {
                                self.state = self.state.handle_event(
                                    ReplicationEvents::ProtocolError,
                                );
                                self.sent = false;
                                proof {
                                    lemma_initiator_prepend_compose(
                                        delta,
                                        crate::resp::enc_line(
                                            45,
                                            crate::connection::protocol_error_text(),
                                        ),
                                        spec_initiator_run(
                                            ReplClientState::ProtocolError,
                                            false,
                                            s0,
                                            cur,
                                            port0,
                                            crid,
                                            coff,
                                        ),
                                    );
                                    delta = delta + crate::resp::enc_line(
                                        45,
                                        crate::connection::protocol_error_text(),
                                    );
                                }
                            },
                        }
                    }
                },
                ReplClientState::NotifyCapabilities => {
                    if !self.sent {
                        let mut args: Vec<Vec<u8>> = Vec::new();
                        let capa: Vec<u8> = vec![99u8, 97, 112, 97];
                        let p2: Vec<u8> = vec![112u8, 115, 121, 110, 99, 50];
                        proof {
                            assert(capa@ =~= capa_arg_text());
                            assert(p2@ =~= psync2_text());
                        }
                        args.push(capa);
                        args.push(p2);
                        let ghost argsv = args@;
                        let _ = crate::client::repl_conf(conn, args);
                        self.sent = true;
                        proof {
                            assert(crate::client::bulk_views(argsv)
                                =~= crate::client::bulk_views_v(
                                seq![capa_arg_text(), psync2_text()],
                            ));
                            assert(crate::client::spec_request(
                                crate::client::replconf_word(),
                                argsv,
                            ) == crate::client::spec_request_v(
                                crate::client::replconf_word(),
                                seq![capa_arg_text(), psync2_text()],
                            ));
                            let req = crate::resp::spec_encode(
                                crate::client::spec_request_v(
                                    crate::client::replconf_word(),
                                    seq![capa_arg_text(), psync2_text()],
                                ),
                            );
                            lemma_initiator_prepend_compose(
                                delta,
                                req,
                                spec_initiator_run(self.state, true, s0, cur, port0, crid, coff),
                            );
                            delta = delta + req;
                        }
                    } else {
                        proof {
                            assert(spec_initiator_run(
                                ReplClientState::NotifyCapabilities,
                                true,
                                s0,
                                cur,
                                port0,
                                crid,
                                coff,
                            ) == spec_initiator_await(
                                ReplClientState::NotifyCapabilities,
                                s0,
                                cur,
                                port0,
                                crid,
                                coff,
                                |v: RespVal| spec_expect_ok(v),
                            ));
                            if cur == s0.len() {
                                assert(crate::resp::spec_parse(s0, cur)
                                    == crate::resp::ParseStep::Fail(
                                    crate::resp::ParseError::UnexpectedEndOfInput,
                                ));
                                assert(crate::resp::spec_parse(Seq::<u8>::empty(), 0)
                                    == crate::resp::ParseStep::Fail(
                                    crate::resp::ParseError::UnexpectedEndOfInput,
                                ));
                            }
                        }
                        match conn.try_read_message() {
                            Ok(Some((msg, _, _))) => {
                                let ev = expect_ok(&msg);
                                self.state = self.state.handle_event(ev);
                                self.sent = false;
                                proof {
                                    crate::resp::lemma_parse_bounds(s0, cur);
                                    let step = crate::resp::spec_parse(s0, cur);
                                    cur = step->Done_1;
                                }
                            },
                            Ok(None) => {
                                proof {
                                    assert(delta + Seq::<u8>::empty() =~= delta);
                                }
                                return HandshakeStatus::NeedInput;
                            },
                            Err(_) => {
                                self.state = self.state.handle_event(
                                    ReplicationEvents::ProtocolError,
                                );
                                self.sent = false;
                                proof {
                                    lemma_initiator_prepend_compose(
                                        delta,
                                        crate::resp::enc_line(
                                            45,
                                            crate::connection::protocol_error_text(),
                                        ),
                                        spec_initiator_run(
                                            ReplClientState::ProtocolError,
                                            false,
                                            s0,
                                            cur,
                                            port0,
                                            crid,
                                            coff,
                                        ),
                                    );
                                    delta = delta + crate::resp::enc_line(
                                        45,
                                        crate::connection::protocol_error_text(),
                                    );
                                }
                            },
                        }
                    }
                },
                ReplClientState::RequestPsync => {
                    if !self.sent {
                        let mut args: Vec<Vec<u8>> = Vec::new();
                        args.push(info.get_master_replid());
                        args.push(crate::text::i64_dec(info.get_master_repl_offset()));
                        let ghost argsv = args@;
                        let _ = crate::client::psync(conn, args);
                        self.sent = true;
                        proof {
                            assert(crate::client::bulk_views(argsv)
                                =~= crate::client::bulk_views_v(
                                seq![crid, crate::text::spec_idec(coff)],
                            ));
                            assert(crate::client::spec_request(
                                crate::client::psync_word(),
                                argsv,
                            ) == crate::client::spec_request_v(
                                crate::client::psync_word(),
                                seq![crid, crate::text::spec_idec(coff)],
                            ));
                            let req = crate::resp::spec_encode(
                                crate::client::spec_request_v(
                                    crate::client::psync_word(),
                                    seq![crid, crate::text::spec_idec(coff)],
                                ),
                            );
                            lemma_initiator_prepend_compose(
                                delta,
                                req,
                                spec_initiator_run(self.state, true, s0, cur, port0, crid, coff),
                            );
                            delta = delta + req;
                        }
                    } else {
                        proof {
                            if cur == s0.len() {
                                assert(crate::resp::spec_parse(s0, cur)
                                    == crate::resp::ParseStep::Fail(
                                    crate::resp::ParseError::UnexpectedEndOfInput,
                                ));
                                assert(crate::resp::spec_parse(Seq::<u8>::empty(), 0)
                                    == crate::resp::ParseStep::Fail(
                                    crate::resp::ParseError::UnexpectedEndOfInput,
                                ));
                            }
                        }
                        match conn.try_read_message() {
                            Ok(Some((msg, _, _))) => {
                                let ev = expect_full_resync(&msg, info);
                                self.state = self.state.handle_event(ev);
                                self.sent = false;
                                proof {
                                    crate::resp::lemma_parse_bounds(s0, cur);
                                    let step = crate::resp::spec_parse(s0, cur);
                                    cur = step->Done_1;
                                    crid = info.spec_replid();
                                    coff = info.spec_offset() as int;
                                }
                            },
                            Ok(None) => {
                                proof {
                                    assert(delta + Seq::<u8>::empty() =~= delta);
                                }
                                return HandshakeStatus::NeedInput;
                            },
                            Err(_) => {
                                self.state = self.state.handle_event(
                                    ReplicationEvents::ProtocolError,
                                );
                                self.sent = false;
                                proof {
                                    lemma_initiator_prepend_compose(
                                        delta,
                                        crate::resp::enc_line(
                                            45,
                                            crate::connection::protocol_error_text(),
                                        ),
                                        spec_initiator_run(
                                            ReplClientState::ProtocolError,
                                            false,
                                            s0,
                                            cur,
                                            port0,
                                            crid,
                                            coff,
                                        ),
                                    );
                                    delta = delta + crate::resp::enc_line(
                                        45,
                                        crate::connection::protocol_error_text(),
                                    );
                                }
                            },
                        }
                    }
                },
                ReplClientState::FullResync => {
                    proof {
                        if cur == s0.len() {
                            assert(crate::connection::spec_rdb(s0, cur)
                                == crate::connection::RdbStep::RMore);
                            assert(crate::connection::spec_rdb(Seq::<u8>::empty(), 0)
                                == crate::connection::RdbStep::RMore);
                        }
                    }
                    match conn.try_read_rdb() {
                        Ok(Some(_)) => {
                            self.state = self.state.handle_event(ReplicationEvents::ReceivedRdb);
                            self.sent = false;
                            proof {
                                let step = crate::connection::spec_rdb(s0, cur);
                                cur = step->RDone_1;
                            }
                        },
                        Ok(None) => {
                            proof {
                                assert(delta + Seq::<u8>::empty() =~= delta);
                            }
                            return HandshakeStatus::NeedInput;
                        },
                        Err(_) => {
                            self.state = self.state.handle_event(
                                ReplicationEvents::ProtocolError,
                            );
                            self.sent = false;
                        },
                    }
                },
                ReplClientState::ReplicationStart => {
                    proof {
                        assert(delta + Seq::<u8>::empty() =~= delta);
                    }
                    return HandshakeStatus::Done;
                },
                ReplClientState::ProtocolError => {
                    proof {
                        assert(delta + Seq::<u8>::empty() =~= delta);
                    }
                    return HandshakeStatus::Failed;
                },
            }
        }
    }
}

pub open spec fn server_rank(s: ReplServerState) -> int {
    match s {
        ReplServerState::ReceivedListeningPort => 6,
        ReplServerState::ReceivedCapabilities => 5,
        ReplServerState::ReceivedPsync => 4,
        ReplServerState::SentFullResync => 3,
        ReplServerState::SentRdb => 2,
        ReplServerState::ReplicationComplete => 1,
        ReplServerState::ProtocolError => 0,
    }
}


/// Everything one acceptor driver call does, as a function of the state,
/// the buffered input, the server identity and the snapshot: the bytes it
/// queues, the position up to which it consumes input, the state and
/// send-flag it leaves, and the status it returns.
pub ghost struct AcceptorRun {
    pub out: Seq<u8>,
    pub pos: int,
    pub state: ReplServerState,
    pub sent: bool,
    pub status: HandshakeStatus,
}

pub open spec fn acceptor_prepend(prefix: Seq<u8>, r: AcceptorRun) -> AcceptorRun {
    AcceptorRun { out: prefix + r.out, pos: r.pos, state: r.state, sent: r.sent, status: r.status }
}

/// The acceptor, interpreted over the buffered bytes: acknowledge once per
/// awaiting state, classify the next frame when it is whole, announce the
/// full resync, send the snapshot, and stop on truncation, completion or a
/// mismatch. A malformed frame carries the connection's protocol-error
/// reply and fails.
pub open spec fn spec_acceptor_run(
    state: ReplServerState,
    sent: bool,
    s: Seq<u8>,
    pos: int,
    replid: Seq<u8>,
    offset: int,
    rdb: Seq<u8>,
) -> AcceptorRun
    decreases server_rank(state) * 2 + (if sent {
        0int
    } else {
        1int
    }),
{
    match state {
        ReplServerState::ReceivedListeningPort => {
            if !sent {
                acceptor_prepend(
                    crate::resp::enc_line(43, ok_text()),
                    spec_acceptor_run(state, true, s, pos, replid, offset, rdb),
                )
            } else {
                match crate::resp::spec_parse(s, pos) {
                    crate::resp::ParseStep::Done(v, p) => spec_acceptor_run(
                        spec_server_step(state, spec_expect_capabilities(v)),
                        false,
                        s,
                        p,
                        replid,
                        offset,
                        rdb,
                    ),
                    crate::resp::ParseStep::Fail(
                        crate::resp::ParseError::UnexpectedEndOfInput,
                    ) => AcceptorRun {
                        out: Seq::<u8>::empty(),
                        pos,
                        state,
                        sent,
                        status: HandshakeStatus::NeedInput,
                    },
                    crate::resp::ParseStep::Fail(_) => AcceptorRun {
                        out: crate::resp::enc_line(45, crate::connection::protocol_error_text()),
                        pos,
                        state: ReplServerState::ProtocolError,
                        sent: false,
                        status: HandshakeStatus::Failed,
                    },
                }
            }
        },
        ReplServerState::ReceivedCapabilities => {
            if !sent {
                acceptor_prepend(
                    crate::resp::enc_line(43, ok_text()),
                    spec_acceptor_run(state, true, s, pos, replid, offset, rdb),
                )
            } else {
                match crate::resp::spec_parse(s, pos) {
                    crate::resp::ParseStep::Done(v, p) => spec_acceptor_run(
                        spec_server_step(state, spec_expect_psync(v)),
                        false,
                        s,
                        p,
                        replid,
                        offset,
                        rdb,
                    ),
                    crate::resp::ParseStep::Fail(
                        crate::resp::ParseError::UnexpectedEndOfInput,
                    ) => AcceptorRun {
                        out: Seq::<u8>::empty(),
                        pos,
                        state,
                        sent,
                        status: HandshakeStatus::NeedInput,
                    },
                    crate::resp::ParseStep::Fail(_) => AcceptorRun {
                        out: crate::resp::enc_line(45, crate::connection::protocol_error_text()),
                        pos,
                        state: ReplServerState::ProtocolError,
                        sent: false,
                        status: HandshakeStatus::Failed,
                    },
                }
            }
        },
        ReplServerState::ReceivedPsync => acceptor_prepend(
            crate::resp::enc_bulk(36, crate::command::spec_fullresync_line(replid, offset)),
            spec_acceptor_run(ReplServerState::SentFullResync, false, s, pos, replid, offset, rdb),
        ),
        ReplServerState::SentFullResync => acceptor_prepend(
            crate::command::spec_rdb_frame(rdb),
            spec_acceptor_run(ReplServerState::SentRdb, false, s, pos, replid, offset, rdb),
        ),
        ReplServerState::SentRdb => spec_acceptor_run(
            ReplServerState::ReplicationComplete,
            false,
            s,
            pos,
            replid,
            offset,
            rdb,
        ),
        ReplServerState::ReplicationComplete => AcceptorRun {
            out: Seq::<u8>::empty(),
            pos,
            state,
            sent,
            status: HandshakeStatus::Done,
        },
        ReplServerState::ProtocolError => AcceptorRun {
            out: Seq::<u8>::empty(),
            pos,
            state,
            sent,
            status: HandshakeStatus::Failed,
        },
    }
}

proof fn lemma_acceptor_prepend_compose(a: Seq<u8>, b: Seq<u8>, r: AcceptorRun)
    ensures
        acceptor_prepend(a, acceptor_prepend(b, r)) == acceptor_prepend(a + b, r),
{
    assert(a + (b + r.out) =~= (a + b) + r.out);
}

/// The acceptor driver, entered when REPLCONF listening-port arrives.
pub struct ReplServerProtocol {
    pub state: ReplServerState,
    pub sent: bool,
}

impl ReplServerProtocol {
    pub fn new() -> (r: ReplServerProtocol)
        ensures
            r.state == ReplServerState::ReceivedListeningPort,
            !r.sent,
    {
        ReplServerProtocol { state: ReplServerState::ReceivedListeningPort, sent: false }
    }

    pub fn handle_event(&mut self, event: ReplServerEvents)
        ensures
            final(self).state == spec_server_step(old(self).state, event),
    {
        self.state = self.state.handle_event(event);
    }

    /// Drive the acceptor as far as the buffered input allows: acknowledge,
    /// await the capabilities and the PSYNC, announce the full resync and
    /// send the snapshot. The whole call is pinned by `spec_acceptor_run`
    /// over the state and the buffered bytes.
    pub fn start(&mut self, conn: &mut Connection, info: &ServerInfo, rdb: &[u8]) -> (r:
        HandshakeStatus)
        requires
            old(conn).inv(),
            old(conn).is_writable(),
            old(conn).is_readable(),
        ensures
            final(conn).inv(),
            final(conn).is_writable(),
            final(conn).is_readable(),
            ({
                let run = spec_acceptor_run(
                    old(self).state,
                    old(self).sent,
                    old(conn).read_bytes(),
                    old(conn).read_mark(),
                    info.spec_replid(),
                    info.spec_offset() as int,
                    rdb@,
                );
                &&& r == run.status
                &&& final(self).state == run.state
                &&& final(self).sent == run.sent
                &&& final(conn).out_bytes() == old(conn).out_bytes() + run.out
                &&& crate::connection::read_run_state(
                    old(conn).read_bytes(),
                    run.pos,
                    *final(conn),
                )
            }),
            r == HandshakeStatus::Done ==> final(self).state
                == ReplServerState::ReplicationComplete,
            r == HandshakeStatus::Failed ==> final(self).state == ReplServerState::ProtocolError,
    {
        let ghost st0 = self.state;
        let ghost sent0 = self.sent;
        let ghost s0 = conn.read_bytes();
        let ghost p0 = conn.read_mark();
        let ghost out0 = conn.out_bytes();
        let ghost rid = info.spec_replid();
        let ghost off = info.spec_offset() as int;
        let ghost mut cur: int = p0;
        let ghost mut delta: Seq<u8> = Seq::<u8>::empty();
        proof {
            crate::connection::lemma_conn_inv_bounds(*conn);
            assert(out0 + delta =~= out0);
        }
        loop
            invariant
                conn.inv(),
                conn.is_writable(),
                conn.is_readable(),
                st0 == old(self).state,
                sent0 == old(self).sent,
                s0 == old(conn).read_bytes(),
                p0 == old(conn).read_mark(),
                out0 == old(conn).out_bytes(),
                rid == info.spec_replid(),
                off == info.spec_offset() as int,
                0 <= p0 <= s0.len(),
                p0 <= cur <= s0.len(),
                conn.out_bytes() == out0 + delta,
                crate::connection::read_run_state(s0, cur, *conn),
                spec_acceptor_run(st0, sent0, s0, p0, rid, off, rdb@) == acceptor_prepend(
                    delta,
                    spec_acceptor_run(self.state, self.sent, s0, cur, rid, off, rdb@),
                ),
            decreases server_rank(self.state) * 2 + (if self.sent {
                0int
            } else {
                1int
            }),
        {
            match self.state {
                ReplServerState::ReceivedListeningPort => {
                    if !self.sent {
                        let ok: Vec<u8> = vec![79u8, 75];
                        proof {
                            assert(ok@ =~= ok_text());
                        }
                        let _ = conn.write_str(ok.as_slice());
                        self.sent = true;
                        proof {
                            lemma_acceptor_prepend_compose(
                                delta,
                                crate::resp::enc_line(43, ok_text()),
                                spec_acceptor_run(self.state, true, s0, cur, rid, off, rdb@),
                            );
                            delta = delta + crate::resp::enc_line(43, ok_text());
                        }
                    } else {
                        proof {
                            if cur == s0.len() {
                                assert(crate::resp::spec_parse(s0, cur)
                                    == crate::resp::ParseStep::Fail(
                                    crate::resp::ParseError::UnexpectedEndOfInput,
                                ));
                                assert(crate::resp::spec_parse(Seq::<u8>::empty(), 0)
                                    == crate::resp::ParseStep::Fail(
                                    crate::resp::ParseError::UnexpectedEndOfInput,
                                ));
                            }
                        }
                        match conn.try_read_message() {
                            Ok(Some((msg, _, _))) => {
                                let ev = expect_capabilities(&msg);
                                self.state = self.state.handle_event(ev);
                                self.sent = false;
                                proof {
                                    crate::resp::lemma_parse_bounds(s0, cur);
                                    let step = crate::resp::spec_parse(s0, cur);
                                    cur = step->Done_1;
                                }
                            },
                            Ok(None) => {
                                proof {
                                    assert(delta + Seq::<u8>::empty() =~= delta);
                                }
                                return HandshakeStatus::NeedInput;
                            },
                            Err(_) => {
                                self.state = self.state.handle_event(
                                    ReplServerEvents::ProtocolError,
                                );
                                self.sent = false;
                                proof {
                                    lemma_acceptor_prepend_compose(
                                        delta,
                                        crate::resp::enc_line(
                                            45,
                                            crate::connection::protocol_error_text(),
                                        ),
                                        spec_acceptor_run(
                                            ReplServerState::ProtocolError,
                                            false,
                                            s0,
                                            cur,
                                            rid,
                                            off,
                                            rdb@,
                                        ),
                                    );
                                    delta = delta + crate::resp::enc_line(
                                        45,
                                        crate::connection::protocol_error_text(),
                                    );
                                }
                            },
                        }
                    }
                },
                ReplServerState::ReceivedCapabilities => {
                    if !self.sent {
                        let ok: Vec<u8> = vec![79u8, 75];
                        proof {
                            assert(ok@ =~= ok_text());
                        }
                        let _ = conn.write_str(ok.as_slice());
                        self.sent = true;
                        proof {
                            lemma_acceptor_prepend_compose(
                                delta,
                                crate::resp::enc_line(43, ok_text()),
                                spec_acceptor_run(self.state, true, s0, cur, rid, off, rdb@),
                            );
                            delta = delta + crate::resp::enc_line(43, ok_text());
                        }
                    } else {
                        proof {
                            if cur == s0.len() {
                                assert(crate::resp::spec_parse(s0, cur)
                                    == crate::resp::ParseStep::Fail(
                                    crate::resp::ParseError::UnexpectedEndOfInput,
                                ));
                                assert(crate::resp::spec_parse(Seq::<u8>::empty(), 0)
                                    == crate::resp::ParseStep::Fail(
                                    crate::resp::ParseError::UnexpectedEndOfInput,
                                ));
                            }
                        }
                        match conn.try_read_message() {
                            Ok(Some((msg, _, _))) => {
                                let ev = expect_psync(&msg);
                                self.state = self.state.handle_event(ev);
                                self.sent = false;
                                proof {
                                    crate::resp::lemma_parse_bounds(s0, cur);
                                    let step = crate::resp::spec_parse(s0, cur);
                                    cur = step->Done_1;
                                }
                            },
                            Ok(None) => {
                                proof {
                                    assert(delta + Seq::<u8>::empty() =~= delta);
                                }
                                return HandshakeStatus::NeedInput;
                            },
                            Err(_) => {
                                self.state = self.state.handle_event(
                                    ReplServerEvents::ProtocolError,
                                );
                                self.sent = false;
                                proof {
                                    lemma_acceptor_prepend_compose(
                                        delta,
                                        crate::resp::enc_line(
                                            45,
                                            crate::connection::protocol_error_text(),
                                        ),
                                        spec_acceptor_run(
                                            ReplServerState::ProtocolError,
                                            false,
                                            s0,
                                            cur,
                                            rid,
                                            off,
                                            rdb@,
                                        ),
                                    );
                                    delta = delta + crate::resp::enc_line(
                                        45,
                                        crate::connection::protocol_error_text(),
                                    );
                                }
                            },
                        }
                    }
                },
                ReplServerState::ReceivedPsync => {
                    let mut payload: Vec<u8> = vec![70u8, 85, 76, 76, 82, 69, 83, 89, 78, 67];
                    proof {
                        assert(payload@ =~= crate::command::fullresync_word());
                    }
                    payload.push(32);
                    let replid = info.get_master_replid();
                    crate::resp::push_all(&mut payload, replid.as_slice());
                    payload.push(32);
                    let off_text = crate::text::i64_dec(info.get_master_repl_offset());
                    crate::resp::push_all(&mut payload, off_text.as_slice());
                    proof {
                        assert(payload@ =~= crate::command::spec_fullresync_line(rid, off));
                    }
                    let _ = conn.write_bytes(payload.as_slice());
                    self.state = self.state.handle_event(ReplServerEvents::SentResponse);
                    self.sent = false;
                    proof {
                        lemma_acceptor_prepend_compose(
                            delta,
                            crate::resp::enc_bulk(
                                36,
                                crate::command::spec_fullresync_line(rid, off),
                            ),
                            spec_acceptor_run(
                                ReplServerState::SentFullResync,
                                false,
                                s0,
                                cur,
                                rid,
                                off,
                                rdb@,
                            ),
                        );
                        delta = delta + crate::resp::enc_bulk(
                            36,
                            crate::command::spec_fullresync_line(rid, off),
                        );
                    }
                },
                ReplServerState::SentFullResync => {
                    let mut header: Vec<u8> = Vec::new();
                    header.push(36);
                    let len_text = crate::text::usize_dec(rdb.len());
                    crate::resp::push_all(&mut header, len_text.as_slice());
                    header.push(13);
                    header.push(10);
                    conn.write(header.as_slice());
                    conn.write(rdb);
                    self.state = self.state.handle_event(ReplServerEvents::SentResponse);
                    self.sent = false;
                    proof {
                        assert(header@ + rdb@ =~= crate::command::spec_rdb_frame(rdb@));
                        lemma_acceptor_prepend_compose(
                            delta,
                            crate::command::spec_rdb_frame(rdb@),
                            spec_acceptor_run(
                                ReplServerState::SentRdb,
                                false,
                                s0,
                                cur,
                                rid,
                                off,
                                rdb@,
                            ),
                        );
                        delta = delta + crate::command::spec_rdb_frame(rdb@);
                    }
                },
                ReplServerState::SentRdb => {
                    self.state = self.state.handle_event(ReplServerEvents::Done);
                    self.sent = false;
                },
                ReplServerState::ReplicationComplete => {
                    proof {
                        assert(delta + Seq::<u8>::empty() =~= delta);
                    }
                    return HandshakeStatus::Done;
                },
                ReplServerState::ProtocolError => {
                    proof {
                        assert(delta + Seq::<u8>::empty() =~= delta);
                    }
                    return HandshakeStatus::Failed;
                },
            }
        }
    }
}

} // verus!
