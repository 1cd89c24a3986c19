//! Request builders for the replica side of the handshake: each builds one
//! command array and queues it on the connection.
use vstd::prelude::*;

use crate::connection::{conn_frame, gates_frame, Connection, Error};
use crate::resp::{spec_encode, Resp, RespVal};

verus! {

pub open spec fn ping_word() -> Seq<u8> {
    seq![80u8, 73, 78, 71]
}

pub open spec fn replconf_word() -> Seq<u8> {
    seq![82u8, 69, 80, 76, 67, 79, 78, 70]
}

pub open spec fn psync_word() -> Seq<u8> {
    seq![80u8, 83, 89, 78, 67]
}

/// Each byte string as a bulk-string element.
pub open spec fn bulk_views(args: Seq<Vec<u8>>) -> Seq<RespVal> {
    Seq::new(
        args.len(),
        |i: int|
            if 0 <= i < args.len() {
                RespVal::BulkString(args[i]@)
            } else {
                RespVal::Null
            },
    )
}

/// The request array for a command word and its arguments.
pub open spec fn spec_request(word: Seq<u8>, args: Seq<Vec<u8>>) -> RespVal {
    RespVal::Array(seq![RespVal::BulkString(word)] + bulk_views(args))
}

fn build_request(word: Vec<u8>, args: Vec<Vec<u8>>) -> (r: Resp)
    ensures
        r@ == spec_request(word@, args@),
{
    let ghost w = word@;
    let ghost vs = args@;
    let mut items: Vec<Resp> = Vec::new();
    items.push(Resp::BulkString(word));
    let n = args.len();
    let mut i: usize = 0;
    let mut rest = args;
    // move each argument into a bulk string, front to back
    while i < n
        invariant
            0 <= i <= n,
            n == vs.len(),
            rest@ =~= vs.subrange(i as int, n as int),
            items@.len() == i + 1,
            items@[0]@ == RespVal::BulkString(w),
            forall|k: int|
                1 <= k <= i ==> (#[trigger] items@[k])@ == RespVal::BulkString(vs[k - 1]@),
        decreases n - i,
    {
        let a = rest.remove(0);
        proof {
            assert(vs.subrange(i as int, n as int)[0] == vs[i as int]);
        }
        items.push(Resp::BulkString(a));
        i += 1;
        proof {
            assert(rest@ =~= vs.subrange(i as int, n as int));
        }
    }
    let r = Resp::Array(items);
    proof {
        assert(crate::resp::deep_views(items@) =~= seq![RespVal::BulkString(w)] + bulk_views(vs));
    }
    r
}

/// A PING request.
pub fn ping(conn: &mut Connection) -> (r: Result<(), Error>)
    requires
        old(conn).inv(),
    ensures
        final(conn).inv(),
        conn_frame(*old(conn), *final(conn)),
        gates_frame(*old(conn), *final(conn)),
        old(conn).is_writable() ==> r is Ok && final(conn).out_bytes() == old(conn).out_bytes()
            + spec_encode(spec_request(ping_word(), Seq::<Vec<u8>>::empty())),
        !old(conn).is_writable() ==> final(conn).out_bytes() == old(conn).out_bytes(),
{
    let word: Vec<u8> = vec![80u8, 73, 78, 71];
    proof {
        assert(word@ =~= ping_word());
    }
    let req = build_request(word, Vec::new());
    proof {
        assert(bulk_views(Seq::<Vec<u8>>::empty()) =~= Seq::<RespVal>::empty());
    }
    conn.write_message(&req)
}

/// A REPLCONF request with the given arguments.
pub fn repl_conf(conn: &mut Connection, args: Vec<Vec<u8>>) -> (r: Result<(), Error>)
    requires
        old(conn).inv(),
    ensures
        final(conn).inv(),
        conn_frame(*old(conn), *final(conn)),
        gates_frame(*old(conn), *final(conn)),
        old(conn).is_writable() ==> r is Ok && final(conn).out_bytes() == old(conn).out_bytes()
            + spec_encode(spec_request(replconf_word(), args@)),
        !old(conn).is_writable() ==> final(conn).out_bytes() == old(conn).out_bytes(),
{
    let word: Vec<u8> = vec![82u8, 69, 80, 76, 67, 79, 78, 70];
    proof {
        assert(word@ =~= replconf_word());
    }
    let req = build_request(word, args);
    conn.write_message(&req)
}

/// A PSYNC request with the given arguments.
pub fn psync(conn: &mut Connection, args: Vec<Vec<u8>>) -> (r: Result<(), Error>)
    requires
        old(conn).inv(),
    ensures
        final(conn).inv(),
        conn_frame(*old(conn), *final(conn)),
        gates_frame(*old(conn), *final(conn)),
        old(conn).is_writable() ==> r is Ok && final(conn).out_bytes() == old(conn).out_bytes()
            + spec_encode(spec_request(psync_word(), args@)),
        !old(conn).is_writable() ==> final(conn).out_bytes() == old(conn).out_bytes(),
{
    let word: Vec<u8> = vec![80u8, 83, 89, 78, 67];
    proof {
        assert(word@ =~= psync_word());
    }
    let req = build_request(word, args);
    conn.write_message(&req)
}

} // verus!

verus! {

/// The REPLCONF ACK reply a replica sends for GETACK: the command word,
/// ACK, and the observed offset as decimal text.
pub open spec fn spec_ack_reply(offset: int) -> RespVal {
    RespVal::Array(
        seq![
            RespVal::BulkString(replconf_word()),
            RespVal::BulkString(seq![65u8, 67, 75]),
            RespVal::BulkString(crate::text::spec_idec(offset)),
        ],
    )
}

} // verus!

verus! {

/// Each byte sequence as a bulk-string element, at the specification level.
pub open spec fn bulk_views_v(args: Seq<Seq<u8>>) -> Seq<RespVal> {
    Seq::new(
        args.len(),
        |i: int|
            if 0 <= i < args.len() {
                RespVal::BulkString(args[i])
            } else {
                RespVal::Null
            },
    )
}

/// The request array for a command word and its arguments, over plain byte
/// sequences.
pub open spec fn spec_request_v(word: Seq<u8>, args: Seq<Seq<u8>>) -> RespVal {
    RespVal::Array(seq![RespVal::BulkString(word)] + bulk_views_v(args))
}

} // verus!
