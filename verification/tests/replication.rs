//! The replication machinery end to end: both handshake sides, the ledger
//! fan-out, the replica's offset accounting, and the dispatcher's error
//! replies.
use respkv::connection::Connection;
use respkv::context::{Context, MasterStep, ReplicaStep};
use respkv::database::Database;
use respkv::history::History;
use respkv::protocol::{HandshakeStatus, ReplClientState, ReplicationProtocol};
use respkv::server::ServerInfo;

const RDB: [u8; 88] = [7u8; 88];

fn master_ctx() -> (Context, Database, History, ServerInfo) {
    (
        Context::new(Connection::new()),
        Database::new(),
        History::new(),
        ServerInfo::master(),
    )
}

#[test]
fn master_side_handshake_ends_in_the_ledger() {
    let (mut ctx, mut db, mut hist, info) = master_ctx();

    ctx.feed(b"*3\r\n$8\r\nREPLCONF\r\n$14\r\nlistening-port\r\n$4\r\n6380\r\n");
    let step = ctx.master_exec_step(&mut db, &mut hist, &info, 0, &RDB);
    assert!(matches!(step, MasterStep::NeedInput));
    assert_eq!(ctx.take_output(), b"+OK\r\n");

    ctx.feed(b"*3\r\n$8\r\nREPLCONF\r\n$4\r\ncapa\r\n$6\r\npsync2\r\n");
    let step = ctx.master_exec_step(&mut db, &mut hist, &info, 0, &RDB);
    assert!(matches!(step, MasterStep::NeedInput));
    assert_eq!(ctx.take_output(), b"+OK\r\n");

    ctx.feed(b"*3\r\n$5\r\nPSYNC\r\n$1\r\n?\r\n$2\r\n-1\r\n");
    let step = ctx.master_exec_step(&mut db, &mut hist, &info, 0, &RDB);
    assert!(matches!(step, MasterStep::Replicate));

    let out = ctx.take_output();
    let mut expected = Vec::new();
    expected.extend_from_slice(
        b"$53\r\nFULLRESYNC 8371b4fb1155b71f4a04d3e1bc3e18c4a990aeeb 0\r\n",
    );
    expected.extend_from_slice(b"$88\r\n");
    expected.extend_from_slice(&RDB);
    assert_eq!(out, expected);

    // the connection now joins the ledger as a replica
    hist.add_replica();
    assert_eq!(hist.replica_count(), 1);
}

#[test]
fn replica_initiator_reaches_replication_start() {
    // a scripted master answers each request in turn
    let mut conn = Connection::new();
    let mut info = ServerInfo::replica((b"localhost".to_vec(), b"6379".to_vec()));
    let mut proto = ReplicationProtocol::new(b"6380".to_vec());

    let st = proto.start(&mut conn, &mut info);
    assert_eq!(st, HandshakeStatus::NeedInput);
    assert_eq!(conn.take_output(), b"*1\r\n$4\r\nPING\r\n");

    conn.feed(b"+PONG\r\n");
    let st = proto.start(&mut conn, &mut info);
    assert_eq!(st, HandshakeStatus::NeedInput);
    assert_eq!(
        conn.take_output(),
        b"*3\r\n$8\r\nREPLCONF\r\n$14\r\nlistening-port\r\n$4\r\n6380\r\n"
    );

    conn.feed(b"+OK\r\n");
    let st = proto.start(&mut conn, &mut info);
    assert_eq!(st, HandshakeStatus::NeedInput);
    assert_eq!(
        conn.take_output(),
        b"*3\r\n$8\r\nREPLCONF\r\n$4\r\ncapa\r\n$6\r\npsync2\r\n"
    );

    conn.feed(b"+OK\r\n");
    let st = proto.start(&mut conn, &mut info);
    assert_eq!(st, HandshakeStatus::NeedInput);
    assert_eq!(conn.take_output(), b"*3\r\n$5\r\nPSYNC\r\n$1\r\n?\r\n$2\r\n-1\r\n");

    // id of 21 characters makes the announcement 34 bytes long
    let id = b"abcabcabcabcabcabcabc";
    assert_eq!(11 + id.len() + 2, 34);
    let mut reply = Vec::new();
    reply.extend_from_slice(b"$34\r\nFULLRESYNC ");
    reply.extend_from_slice(id);
    reply.extend_from_slice(b" 0\r\n");
    conn.feed(&reply);
    let st = proto.start(&mut conn, &mut info);
    assert_eq!(st, HandshakeStatus::NeedInput);

    let mut snap = Vec::new();
    snap.extend_from_slice(b"$88\r\n");
    snap.extend_from_slice(&RDB);
    conn.feed(&snap);
    let st = proto.start(&mut conn, &mut info);
    assert_eq!(st, HandshakeStatus::Done);

    assert_eq!(proto.state, ReplClientState::ReplicationStart);
    assert_eq!(info.get_master_replid(), id.to_vec());
    assert_eq!(info.get_master_repl_offset(), 0);
}

#[test]
fn fan_out_delivers_raw_writes_in_commit_order() {
    let mut hist = History::new();
    hist.add_replica();

    let w1 = b"*3\r\n$3\r\nSET\r\n$1\r\na\r\n$1\r\n1\r\n";
    let d1 = hist.add_write(w1);
    assert_eq!(d1.len(), 1);
    assert_eq!(d1[0], w1.to_vec());

    let w2 = b"*3\r\n$3\r\nSET\r\n$1\r\nb\r\n$1\r\n2\r\n";
    let d2 = hist.add_write(w2);
    assert_eq!(d2.len(), 1);
    assert_eq!(d2[0], w2.to_vec());

    // a replica attached later starts past the history
    hist.add_replica();
    let w3 = b"*1\r\n$4\r\nPING\r\n";
    let d3 = hist.add_write(w3);
    assert_eq!(d3.len(), 2);
    assert_eq!(d3[0], w3.to_vec());
    assert_eq!(d3[1], w3.to_vec());
}

#[test]
fn master_writes_are_ledgered_and_reads_are_not() {
    let (mut ctx, mut db, mut hist, info) = master_ctx();
    ctx.feed(b"*3\r\n$3\r\nSET\r\n$1\r\nk\r\n$1\r\nv\r\n");
    hist.add_replica();
    let step = ctx.master_exec_step(&mut db, &mut hist, &info, 0, &RDB);
    match step {
        MasterStep::Progress(deltas) => {
            assert_eq!(deltas.len(), 1);
            assert_eq!(deltas[0], b"*3\r\n$3\r\nSET\r\n$1\r\nk\r\n$1\r\nv\r\n".to_vec());
        }
        _ => panic!("expected progress"),
    }
    assert_eq!(ctx.take_output(), b"+OK\r\n");

    ctx.feed(b"*2\r\n$3\r\nGET\r\n$1\r\nk\r\n");
    let step = ctx.master_exec_step(&mut db, &mut hist, &info, 0, &RDB);
    match step {
        MasterStep::Progress(deltas) => assert_eq!(deltas.len(), 0),
        _ => panic!("expected progress"),
    }
    assert_eq!(ctx.take_output(), b"$1\r\nv\r\n");
}

#[test]
fn malformed_requests_get_their_error_replies() {
    let (mut ctx, mut db, mut hist, info) = master_ctx();

    ctx.feed(b"*0\r\n");
    let step = ctx.master_exec_step(&mut db, &mut hist, &info, 0, &RDB);
    assert!(matches!(step, MasterStep::Progress(_)));
    assert_eq!(ctx.take_output(), b"-ERR unknown or unexpected command\r\n");

    ctx.feed(b"+hi\r\n");
    let step = ctx.master_exec_step(&mut db, &mut hist, &info, 0, &RDB);
    assert!(matches!(step, MasterStep::Progress(_)));
    assert_eq!(ctx.take_output(), b"-ERR expected array of args\r\n");
}

#[test]
fn replica_applies_writes_silently_and_counts_bytes() {
    let mut ctx = Context::new(Connection::new());
    let mut db = Database::new();
    let mut info = ServerInfo::replica((b"localhost".to_vec(), b"6379".to_vec()));
    info.set_master_repl_offset(0);

    let forwarded = b"*3\r\n$3\r\nSET\r\n$3\r\nkey\r\n$3\r\nval\r\n";
    assert_eq!(forwarded.len(), 31);
    ctx.feed(forwarded);
    let step = ctx.replica_exec_step(&mut db, &mut info, 0);
    match step {
        ReplicaStep::Progress(count) => assert_eq!(count, 31),
        _ => panic!("expected progress"),
    }
    // no reply leaves a gated replica connection, and the offset advanced
    assert_eq!(ctx.take_output(), b"");
    assert_eq!(info.get_master_repl_offset(), 31);
    assert_eq!(db.get(&b"key".to_vec()).unwrap().data, b"val".to_vec());
}

#[test]
fn replica_answers_getack_with_its_offset() {
    let mut ctx = Context::new(Connection::new());
    let mut db = Database::new();
    let mut info = ServerInfo::replica((b"localhost".to_vec(), b"6379".to_vec()));
    info.set_master_repl_offset(77);

    let getack = b"*3\r\n$8\r\nREPLCONF\r\n$6\r\nGETACK\r\n$1\r\n*\r\n";
    ctx.feed(getack);
    let step = ctx.replica_exec_step(&mut db, &mut info, 0);
    assert!(matches!(step, ReplicaStep::Progress(_)));
    assert_eq!(
        ctx.take_output(),
        b"*3\r\n$8\r\nREPLCONF\r\n$3\r\nACK\r\n$2\r\n77\r\n"
    );
}

#[test]
fn classification_covers_the_command_table() {
    let (mut ctx, mut db, mut hist, info) = master_ctx();
    ctx.feed(b"*1\r\n$4\r\nPING\r\n");
    let _ = ctx.master_exec_step(&mut db, &mut hist, &info, 0, &RDB);
    assert_eq!(ctx.take_output(), b"+PONG\r\n");

    ctx.feed(b"*2\r\n$4\r\nECHO\r\n$3\r\nhey\r\n");
    let _ = ctx.master_exec_step(&mut db, &mut hist, &info, 0, &RDB);
    assert_eq!(ctx.take_output(), b"$3\r\nhey\r\n");

    ctx.feed(b"*1\r\n$4\r\nINFO\r\n");
    let _ = ctx.master_exec_step(&mut db, &mut hist, &info, 0, &RDB);
    let out = ctx.take_output();
    let text = String::from_utf8(out).unwrap();
    assert!(text.contains("role:master"));
    assert!(text.contains("master_replid:8371b4fb1155b71f4a04d3e1bc3e18c4a990aeeb"));
    assert!(text.contains("master_repl_offset:0"));
}

#[test]
fn malformed_frame_kills_the_connection_with_a_protocol_error() {
    let mut conn = Connection::new();
    conn.feed(b"@oops\r\n");
    let r = conn.try_read_message();
    assert!(r.is_err());
    assert_eq!(conn.take_output(), b"-ERR RESP Protocol Error\r\n");
}

#[test]
fn acceptor_fails_on_wrong_capabilities() {
    let mut conn = Connection::new();
    let info = ServerInfo::master();
    let mut proto = respkv::protocol::ReplServerProtocol::new();
    let st = proto.start(&mut conn, &info, &RDB);
    assert_eq!(st, HandshakeStatus::NeedInput);
    assert_eq!(conn.take_output(), b"+OK\r\n");
    conn.feed(b"*3\r\n$8\r\nREPLCONF\r\n$4\r\ncapa\r\n$5\r\nother\r\n");
    let st = proto.start(&mut conn, &info, &RDB);
    assert_eq!(st, HandshakeStatus::Failed);
    assert_eq!(proto.state, respkv::protocol::ReplServerState::ProtocolError);
}

#[test]
fn initiator_fails_on_a_bad_pong() {
    let mut conn = Connection::new();
    let mut info = ServerInfo::replica((b"h".to_vec(), b"1".to_vec()));
    let mut proto = ReplicationProtocol::new(b"6380".to_vec());
    let st = proto.start(&mut conn, &mut info);
    assert_eq!(st, HandshakeStatus::NeedInput);
    conn.take_output();
    conn.feed(b"+NOPE\r\n");
    let st = proto.start(&mut conn, &mut info);
    assert_eq!(st, HandshakeStatus::Failed);
    assert_eq!(proto.state, ReplClientState::ProtocolError);
}
