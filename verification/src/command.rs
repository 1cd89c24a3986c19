//! The command layer: typed commands, their execution against the keyspace
//! and server info, and the classification that drives the dispatcher's
//! side effects.
use vstd::prelude::*;

use crate::arguments::{
    spec_get_from, ArgError, CmdArgVal, CommandArgument, EchoArguments, Expiration, GetArguments,
    SetArguments, SetVal,
};
use crate::connection::{conn_frame, Connection};
use crate::database::{Database, Record, RecordVal};
use crate::internals::ReplconfCommand;
use crate::resp::{enc_bulk, enc_line, spec_encode, Resp, RespVal};
use crate::server::ServerInfo;
use crate::text::{spec_idec, spec_udec, i64_dec, usize_dec};

verus! {

/// What one executed command asks of the dispatcher: append to the ledger
/// and fan out, keep the connection as a replica, or nothing.
#[derive(Debug, Clone, Copy, PartialEq, Eq, Structural)]
pub enum Transaction {
    Write,
    Replicate,
    Read,
    Noop,
}

pub open spec fn pong_text() -> Seq<u8> {
    seq![80u8, 79, 78, 71]
}

pub open spec fn ok_text() -> Seq<u8> {
    seq![79u8, 75]
}

/// PING: reply `+PONG`, no side effect.
pub struct PingCommand;

impl PingCommand {
    pub fn execute(self, stream: &mut Connection) -> (t: Transaction)
        requires
            old(stream).inv(),
        ensures
            final(stream).inv(),
            conn_frame(*old(stream), *final(stream)),
            final(stream).is_writable() == old(stream).is_writable(),
            final(stream).is_readable() == old(stream).is_readable(),
            final(stream).out_bytes() == old(stream).out_bytes() + if old(stream).is_writable() {
                enc_line(43, pong_text())
            } else {
                Seq::<u8>::empty()
            },
            t == Transaction::Noop,
    {
        let pong: Vec<u8> = vec![80u8, 79, 78, 71];
        proof {
            assert(pong@ =~= pong_text());
        }
        let r = stream.write_str(pong.as_slice());
        proof {
            if !old(stream).is_writable() {
                assert(stream.out_bytes() =~= old(stream).out_bytes() + Seq::<u8>::empty());
            }
        }
        Transaction::Noop
    }
}

/// The INFO reply body: role, replication id and master offset.
pub open spec fn spec_info_payload(role: Seq<u8>, replid: Seq<u8>, offset: int) -> Seq<u8> {
    seq![114u8, 111, 108, 101, 58] + role + seq![13u8, 10] + seq![109u8, 97, 115, 116, 101, 114,
        95, 114, 101, 112, 108, 105, 100, 58] + replid + seq![13u8, 10] + seq![109u8, 97, 115, 116,
        101, 114, 95, 114, 101, 112, 108, 95, 111, 102, 102, 115, 101, 116, 58] + spec_idec(offset)
}

/// INFO: reply a bulk string describing the server, no side effect.
pub struct InfoCommand;

impl InfoCommand {
    pub fn execute(self, stream: &mut Connection, info: &ServerInfo) -> (t: Transaction)
        requires
            old(stream).inv(),
        ensures
            final(stream).inv(),
            conn_frame(*old(stream), *final(stream)),
            final(stream).is_writable() == old(stream).is_writable(),
            final(stream).is_readable() == old(stream).is_readable(),
            final(stream).out_bytes() == old(stream).out_bytes() + if old(stream).is_writable() {
                enc_bulk(
                    36,
                    spec_info_payload(
                        info.spec_role(),
                        info.spec_replid(),
                        info.spec_offset() as int,
                    ),
                )
            } else {
                Seq::<u8>::empty()
            },
            t == Transaction::Noop,
    {
        let mut payload: Vec<u8> = vec![114u8, 111, 108, 101, 58];
        proof {
            assert(payload@ =~= seq![114u8, 111, 108, 101, 58]);
        }
        let role = info.get_role();
        crate::resp::push_all(&mut payload, role.as_slice());
        payload.push(13);
        payload.push(10);
        let tag2: Vec<u8> = vec![109u8, 97, 115, 116, 101, 114, 95, 114, 101, 112, 108, 105, 100,
            58];
        proof {
            assert(tag2@ =~= seq![109u8, 97, 115, 116, 101, 114, 95, 114, 101, 112, 108, 105, 100,
                58]);
        }
        crate::resp::push_all(&mut payload, tag2.as_slice());
        let replid = info.get_master_replid();
        crate::resp::push_all(&mut payload, replid.as_slice());
        payload.push(13);
        payload.push(10);
        let tag3: Vec<u8> = vec![109u8, 97, 115, 116, 101, 114, 95, 114, 101, 112, 108, 95, 111,
            102, 102, 115, 101, 116, 58];
        proof {
            assert(tag3@ =~= seq![109u8, 97, 115, 116, 101, 114, 95, 114, 101, 112, 108, 95, 111,
                102, 102, 115, 101, 116, 58]);
        }
        crate::resp::push_all(&mut payload, tag3.as_slice());
        let off = i64_dec(info.get_master_repl_offset());
        crate::resp::push_all(&mut payload, off.as_slice());
        proof {
            assert(payload@ =~= spec_info_payload(
                info.spec_role(),
                info.spec_replid(),
                info.spec_offset() as int,
            ));
        }
        let r = stream.write_bytes(payload.as_slice());
        proof {
            if !old(stream).is_writable() {
                assert(stream.out_bytes() =~= old(stream).out_bytes() + Seq::<u8>::empty());
            }
        }
        Transaction::Noop
    }
}

/// ECHO: reply the given value, no side effect.
pub struct EchoCommand(pub EchoArguments);

impl EchoCommand {
    pub fn execute(self, stream: &mut Connection) -> (t: Transaction)
        requires
            old(stream).inv(),
        ensures
            final(stream).inv(),
            conn_frame(*old(stream), *final(stream)),
            final(stream).is_writable() == old(stream).is_writable(),
            final(stream).is_readable() == old(stream).is_readable(),
            final(stream).out_bytes() == old(stream).out_bytes() + if old(stream).is_writable() {
                spec_encode(self.0@)
            } else {
                Seq::<u8>::empty()
            },
            t == Transaction::Noop,
    {
        let r = stream.write_message(&self.0.message);
        proof {
            if !old(stream).is_writable() {
                assert(stream.out_bytes() =~= old(stream).out_bytes() + Seq::<u8>::empty());
            }
        }
        Transaction::Noop
    }
}

/// The record a SET stores, stamped at the given clock reading.
pub open spec fn stored_record(sv: SetVal, now_ms: u64) -> RecordVal {
    RecordVal {
        data: sv.value_data,
        expiry: match sv.expiration {
            Option::Some(e) => Option::Some((now_ms, e.spec_millis())),
            Option::None => Option::None,
        },
    }
}

/// SET: the decision table over NX, XX, GET and the previous record.
pub struct SetCommand(pub SetArguments);

impl SetCommand {
    pub fn execute(self, stream: &mut Connection, db: &mut Database, now_ms: u64) -> (t:
        Transaction)
        requires
            old(stream).inv(),
            old(db).inv(),
            self.0.value@.expiry is None,
        ensures
            final(stream).inv(),
            final(db).inv(),
            conn_frame(*old(stream), *final(stream)),
            final(stream).is_writable() == old(stream).is_writable(),
            final(stream).is_readable() == old(stream).is_readable(),
            ({
                let sv = self.0@;
                let prev = old(db).spec_lookup(sv.key);
                let written = final(stream).out_bytes() == old(stream).out_bytes() + if old(
                    stream,
                ).is_writable() {
                    spec_set_reply(sv, prev)
                } else {
                    Seq::<u8>::empty()
                };
                if sv.nx && prev is Some {
                    &&& written
                    &&& t == Transaction::Noop
                    &&& forall|k: Seq<u8>| final(db).spec_lookup(k) == old(db).spec_lookup(k)
                } else if sv.xx && !sv.nx && prev is None {
                    &&& written
                    &&& t == Transaction::Noop
                    &&& forall|k: Seq<u8>| final(db).spec_lookup(k) == old(db).spec_lookup(k)
                } else {
                    &&& written
                    &&& t == Transaction::Write
                    &&& final(db).spec_lookup(sv.key) == Option::Some(stored_record(sv, now_ms))
                    &&& forall|k: Seq<u8>|
                        k != sv.key ==> final(db).spec_lookup(k) == old(db).spec_lookup(k)
                }
            }),
    {
        let SetCommand(args) = self;
        let key = args.key;
        let mut value = args.value;
        if let Some(exp) = args.expiration {
            let ms = exp.as_duration();
            value.set_expiry(now_ms, ms);
        }
        if args.nx {
            if db.contains_key(&key) {
                let r = stream.write_message(&Resp::BulkStringNull);
                proof {
                    if !old(stream).is_writable() {
                        assert(stream.out_bytes() =~= old(stream).out_bytes()
                            + Seq::<u8>::empty());
                    }
                }
                return Transaction::Noop;
            }
            let _prev = db.set(key, value);
            if args.get {
                let r = stream.write_message(&Resp::BulkStringNull);
                proof {
                    if !old(stream).is_writable() {
                        assert(stream.out_bytes() =~= old(stream).out_bytes()
                            + Seq::<u8>::empty());
                    }
                }
                return Transaction::Write;
            }
            let ok: Vec<u8> = vec![79u8, 75];
            proof {
                assert(ok@ =~= ok_text());
            }
            let r = stream.write_str(ok.as_slice());
            proof {
                if !old(stream).is_writable() {
                    assert(stream.out_bytes() =~= old(stream).out_bytes() + Seq::<u8>::empty());
                }
            }
            return Transaction::Write;
        }
        if args.xx {
            if !db.contains_key(&key) {
                let r = stream.write_message(&Resp::BulkStringNull);
                proof {
                    if !old(stream).is_writable() {
                        assert(stream.out_bytes() =~= old(stream).out_bytes()
                            + Seq::<u8>::empty());
                    }
                }
                return Transaction::Noop;
            }
            let prev = db.set(key, value);
            if args.get {
                match prev {
                    Some(p) => {
                        let r = stream.write_bytes(p.data.as_slice());
                        proof {
                            if !old(stream).is_writable() {
                                assert(stream.out_bytes() =~= old(stream).out_bytes()
                                    + Seq::<u8>::empty());
                            }
                        }
                        return Transaction::Write;
                    },
                    None => {
                        let r = stream.write_message(&Resp::BulkStringNull);
                        proof {
                            if !old(stream).is_writable() {
                                assert(stream.out_bytes() =~= old(stream).out_bytes()
                                    + Seq::<u8>::empty());
                            }
                        }
                        return Transaction::Write;
                    },
                }
            }
            let ok: Vec<u8> = vec![79u8, 75];
            proof {
                assert(ok@ =~= ok_text());
            }
            let r = stream.write_str(ok.as_slice());
            proof {
                if !old(stream).is_writable() {
                    assert(stream.out_bytes() =~= old(stream).out_bytes() + Seq::<u8>::empty());
                }
            }
            return Transaction::Write;
        }
        let prev = db.set(key, value);
        if args.get {
            match prev {
                Some(p) => {
                    let r = stream.write_bytes(p.data.as_slice());
                    proof {
                        if !old(stream).is_writable() {
                            assert(stream.out_bytes() =~= old(stream).out_bytes()
                                + Seq::<u8>::empty());
                        }
                    }
                    return Transaction::Write;
                },
                None => {
                    let r = stream.write_message(&Resp::BulkStringNull);
                    proof {
                        if !old(stream).is_writable() {
                            assert(stream.out_bytes() =~= old(stream).out_bytes()
                                + Seq::<u8>::empty());
                        }
                    }
                    return Transaction::Write;
                },
            }
        }
        let ok: Vec<u8> = vec![79u8, 75];
        proof {
            assert(ok@ =~= ok_text());
        }
        let r = stream.write_str(ok.as_slice());
        proof {
            if !old(stream).is_writable() {
                assert(stream.out_bytes() =~= old(stream).out_bytes() + Seq::<u8>::empty());
            }
        }
        Transaction::Write
    }
}

/// The exact reply bytes of each SET decision row.
pub open spec fn spec_set_reply(sv: SetVal, prev: Option<RecordVal>) -> Seq<u8> {
    if sv.nx {
        if prev is Some {
            spec_encode(RespVal::BulkStringNull)
        } else if sv.get {
            spec_encode(RespVal::BulkStringNull)
        } else {
            enc_line(43, ok_text())
        }
    } else if sv.xx {
        if prev is None {
            spec_encode(RespVal::BulkStringNull)
        } else if sv.get {
            enc_bulk(36, prev->Some_0.data)
        } else {
            enc_line(43, ok_text())
        }
    } else if sv.get {
        match prev {
            Option::Some(p) => enc_bulk(36, p.data),
            Option::None => spec_encode(RespVal::BulkStringNull),
        }
    } else {
        enc_line(43, ok_text())
    }
}

/// GET: reply the record's bytes; an absent key replies null; an expired
/// record is deleted first and replies null.
pub struct GetCommand(pub GetArguments);

impl GetCommand {
    pub fn execute(self, stream: &mut Connection, db: &mut Database, now_ms: u64) -> (t:
        Transaction)
        requires
            old(stream).inv(),
            old(db).inv(),
        ensures
            final(stream).inv(),
            final(db).inv(),
            conn_frame(*old(stream), *final(stream)),
            final(stream).is_writable() == old(stream).is_writable(),
            final(stream).is_readable() == old(stream).is_readable(),
            ({
                let key = self.0@;
                match old(db).spec_lookup(key) {
                    Option::None => {
                        &&& t == Transaction::Noop
                        &&& (forall|k: Seq<u8>|
                            final(db).spec_lookup(k) == old(db).spec_lookup(k))
                        &&& final(stream).out_bytes() == old(stream).out_bytes() + if old(
                            stream,
                        ).is_writable() {
                            spec_encode(RespVal::BulkStringNull)
                        } else {
                            Seq::<u8>::empty()
                        }
                    },
                    Option::Some(rec) => if Record::spec_expired(rec, now_ms) {
                        &&& t == Transaction::Write
                        &&& final(db).spec_lookup(key) is None
                        &&& (forall|k: Seq<u8>|
                            k != key ==> final(db).spec_lookup(k) == old(db).spec_lookup(k))
                        &&& final(stream).out_bytes() == old(stream).out_bytes() + if old(
                            stream,
                        ).is_writable() {
                            spec_encode(RespVal::BulkStringNull)
                        } else {
                            Seq::<u8>::empty()
                        }
                    } else {
                        &&& t == Transaction::Read
                        &&& (forall|k: Seq<u8>|
                            final(db).spec_lookup(k) == old(db).spec_lookup(k))
                        &&& final(stream).out_bytes() == old(stream).out_bytes() + if old(
                            stream,
                        ).is_writable() {
                            enc_bulk(36, rec.data)
                        } else {
                            Seq::<u8>::empty()
                        }
                    },
                }
            }),
    {
        let GetCommand(args) = self;
        let key = args.key;
        match db.get(&key) {
            None => {
                let r = stream.write_message(&Resp::BulkStringNull);
                proof {
                    if !old(stream).is_writable() {
                        assert(stream.out_bytes() =~= old(stream).out_bytes()
                            + Seq::<u8>::empty());
                    }
                }
                Transaction::Noop
            },
            Some(payload) => {
                if payload.has_expired(now_ms) {
                    let _ = db.del(&key);
                    let r = stream.write_message(&Resp::BulkStringNull);
                    proof {
                        if !old(stream).is_writable() {
                            assert(stream.out_bytes() =~= old(stream).out_bytes()
                                + Seq::<u8>::empty());
                        }
                    }
                    Transaction::Write
                } else {
                    let r = stream.write_bytes(payload.data.as_slice());
                    proof {
                        if !old(stream).is_writable() {
                            assert(stream.out_bytes() =~= old(stream).out_bytes()
                                + Seq::<u8>::empty());
                        }
                    }
                    Transaction::Read
                }
            },
        }
    }
}

} // verus!

verus! {

pub open spec fn fullresync_word() -> Seq<u8> {
    seq![70u8, 85, 76, 76, 82, 69, 83, 89, 78, 67]
}

/// The full-resync announcement: the word, the master's replication id and
/// its offset, space separated.
pub open spec fn spec_fullresync_line(replid: Seq<u8>, offset: int) -> Seq<u8> {
    fullresync_word() + seq![32u8] + replid + seq![32u8] + spec_idec(offset)
}

/// The snapshot framing: a length header, then the raw payload with no
/// trailing CRLF.
pub open spec fn spec_rdb_frame(payload: Seq<u8>) -> Seq<u8> {
    seq![36u8] + spec_udec(payload.len() as int) + seq![13u8, 10] + payload
}

/// PSYNC: announce a full resync, send the snapshot, and hand the
/// connection over as a replica.
pub struct PsyncCommand;

impl PsyncCommand {
    pub fn execute(self, stream: &mut Connection, info: &ServerInfo, rdb: &[u8]) -> (t:
        Transaction)
        requires
            old(stream).inv(),
        ensures
            final(stream).inv(),
            conn_frame(*old(stream), *final(stream)),
            final(stream).is_writable() == old(stream).is_writable(),
            final(stream).is_readable() == old(stream).is_readable(),
            final(stream).out_bytes() == old(stream).out_bytes() + if old(stream).is_writable() {
                enc_bulk(
                    36,
                    spec_fullresync_line(info.spec_replid(), info.spec_offset() as int),
                ) + spec_rdb_frame(rdb@)
            } else {
                Seq::<u8>::empty()
            },
            t == Transaction::Replicate,
    {
        let mut payload: Vec<u8> = vec![70u8, 85, 76, 76, 82, 69, 83, 89, 78, 67];
        proof {
            assert(payload@ =~= fullresync_word());
        }
        payload.push(32);
        let replid = info.get_master_replid();
        crate::resp::push_all(&mut payload, replid.as_slice());
        payload.push(32);
        let off = i64_dec(info.get_master_repl_offset());
        crate::resp::push_all(&mut payload, off.as_slice());
        proof {
            assert(payload@ =~= spec_fullresync_line(info.spec_replid(), info.spec_offset() as int));
        }
        let r = stream.write_bytes(payload.as_slice());
        let mut header: Vec<u8> = Vec::new();
        header.push(36);
        let len_text = usize_dec(rdb.len());
        crate::resp::push_all(&mut header, len_text.as_slice());
        header.push(13);
        header.push(10);
        stream.write(header.as_slice());
        stream.write(rdb);
        proof {
            if old(stream).is_writable() {
                assert(header@ + rdb@ =~= spec_rdb_frame(rdb@));
                assert(old(stream).out_bytes() + enc_bulk(
                    36,
                    spec_fullresync_line(info.spec_replid(), info.spec_offset() as int),
                ) + header@ + rdb@ =~= old(stream).out_bytes() + (enc_bulk(
                    36,
                    spec_fullresync_line(info.spec_replid(), info.spec_offset() as int),
                ) + spec_rdb_frame(rdb@)));
            } else {
                assert(stream.out_bytes() =~= old(stream).out_bytes() + Seq::<u8>::empty());
            }
        }
        Transaction::Replicate
    }
}

/// A parsed request, ready to execute, or the error to report.
pub enum Cmd {
    Unexpected(ArgError),
    Ping(PingCommand),
    Echo(EchoCommand),
    SetOp(SetCommand),
    Get(GetCommand),
    Info(InfoCommand),
    ReplConf(ReplconfCommand),
}

impl View for Cmd {
    type V = Result<CmdArgVal, ArgError>;

    open spec fn view(&self) -> Result<CmdArgVal, ArgError> {
        match self {
            Cmd::Unexpected(e) => Result::Err(*e),
            Cmd::Ping(_) => Result::Ok(CmdArgVal::Ping),
            Cmd::Echo(c) => Result::Ok(CmdArgVal::Echo(c.0@)),
            Cmd::SetOp(c) => Result::Ok(CmdArgVal::SetOp(c.0@)),
            Cmd::Get(c) => Result::Ok(CmdArgVal::Get(c.0@)),
            Cmd::Info(_) => Result::Ok(CmdArgVal::Info),
            Cmd::ReplConf(c) => Result::Ok(CmdArgVal::Replconf(c.0@)),
        }
    }
}

/// What the dispatcher makes of one framed request: only an array of
/// arguments can be a command, and a direct PSYNC is not part of the
/// request vocabulary.
pub open spec fn spec_parse_cmd(v: RespVal) -> Result<CmdArgVal, ArgError> {
    match v {
        RespVal::Array(vs) => match spec_get_from(vs) {
            Result::Ok(CmdArgVal::Psync(_)) => Result::Err(ArgError::UnknownCommand),
            Result::Ok(c) => Result::Ok(c),
            Result::Err(e) => Result::Err(e),
        },
        _ => Result::Err(ArgError::ExpectedArray),
    }
}

/// Turns one framed value into a command.
pub struct CmdParser;

impl CmdParser {
    pub fn parse(input: &Resp) -> (r: Cmd)
        ensures
            r@ == spec_parse_cmd(input@),
            r matches Cmd::SetOp(c) ==> c.0.value@.expiry is None,
    {
        match input {
            Resp::Array(args) => {
                match crate::arguments::ArgumentParser::get_from(args) {
                    Ok(CommandArgument::Ping) => Cmd::Ping(PingCommand),
                    Ok(CommandArgument::Info) => Cmd::Info(InfoCommand),
                    Ok(CommandArgument::Echo(e)) => Cmd::Echo(EchoCommand(e)),
                    Ok(CommandArgument::Get(g)) => Cmd::Get(GetCommand(g)),
                    Ok(CommandArgument::SetOp(s)) => Cmd::SetOp(SetCommand(s)),
                    Ok(CommandArgument::Replconf(rc)) => Cmd::ReplConf(ReplconfCommand(rc)),
                    Ok(CommandArgument::Psync(_)) => Cmd::Unexpected(ArgError::UnknownCommand),
                    Err(e) => Cmd::Unexpected(e),
                }
            },
            _ => Cmd::Unexpected(ArgError::ExpectedArray),
        }
    }
}

} // verus!

verus! {

/// The fixed snapshot payload sent during an initial full resync: an empty
/// store in the snapshot format, 88 opaque bytes.
pub open spec fn empty_rdb_text() -> Seq<u8> {
    seq![82u8, 69, 68, 73, 83, 48, 48, 49, 49, 250, 9, 114, 101, 100, 105, 115, 45, 118, 101, 114, 5, 55, 46, 50, 46, 48, 250, 10, 114, 101, 100, 105, 115, 45, 98, 105, 116, 115, 192, 64, 250, 5, 99, 116, 105, 109, 101, 194, 109, 8, 188, 101, 250, 8, 117, 115, 101, 100, 45, 109, 101, 109, 194, 176, 196, 16, 0, 250, 8, 97, 111, 102, 45, 98, 97, 115, 101, 192, 0, 255, 240, 110, 59, 254, 192, 255, 90, 162]
}

pub fn get_empty_rdb_file() -> (r: Vec<u8>)
    ensures
        r@ == empty_rdb_text(),
{
    let r: Vec<u8> = vec![82u8, 69, 68, 73, 83, 48, 48, 49, 49, 250, 9, 114, 101, 100, 105, 115, 45, 118, 101, 114, 5, 55, 46, 50, 46, 48, 250, 10, 114, 101, 100, 105, 115, 45, 98, 105, 116, 115, 192, 64, 250, 5, 99, 116, 105, 109, 101, 194, 109, 8, 188, 101, 250, 8, 117, 115, 101, 100, 45, 109, 101, 109, 194, 176, 196, 16, 0, 250, 8, 97, 111, 102, 45, 98, 97, 115, 101, 192, 0, 255, 240, 110, 59, 254, 192, 255, 90, 162];
    proof {
        assert(r@ =~= empty_rdb_text());
    }
    r
}

} // verus!

verus! {

/// No key maps differently.
pub open spec fn db_unchanged(pre: Database, post: Database) -> bool {
    forall|k: Seq<u8>| post.spec_lookup(k) == pre.spec_lookup(k)
}

/// The keyspace effect of one SET, by the decision table.
pub open spec fn db_set_effect(pre: Database, post: Database, sv: SetVal, now_ms: u64) -> bool {
    let prev = pre.spec_lookup(sv.key);
    if sv.nx && prev is Some {
        db_unchanged(pre, post)
    } else if sv.xx && !sv.nx && prev is None {
        db_unchanged(pre, post)
    } else {
        post.spec_lookup(sv.key) == Option::Some(stored_record(sv, now_ms)) && (forall|k: Seq<u8>|
            k != sv.key ==> post.spec_lookup(k) == pre.spec_lookup(k))
    }
}

/// The keyspace effect of one GET: only an expired record is removed.
pub open spec fn db_get_effect(pre: Database, post: Database, key: Seq<u8>, now_ms: u64) -> bool {
    match pre.spec_lookup(key) {
        Option::Some(rec) => if Record::spec_expired(rec, now_ms) {
            post.spec_lookup(key) is None && (forall|k: Seq<u8>|
                k != key ==> post.spec_lookup(k) == pre.spec_lookup(k))
        } else {
            db_unchanged(pre, post)
        },
        Option::None => db_unchanged(pre, post),
    }
}

/// The exact reply bytes of one GET against the previous record.
pub open spec fn spec_get_reply(prev: Option<RecordVal>, now_ms: u64) -> Seq<u8> {
    match prev {
        Option::Some(rec) => if Record::spec_expired(rec, now_ms) {
            spec_encode(RespVal::BulkStringNull)
        } else {
            enc_bulk(36, rec.data)
        },
        Option::None => spec_encode(RespVal::BulkStringNull),
    }
}

} // verus!
