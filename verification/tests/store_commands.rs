//! The keyspace, the SET decision table, lazy expiry, and the error kinds
//! the parser distinguishes.
use respkv::arguments::{Expiration, GetArguments, SetArguments};
use respkv::command::{GetCommand, SetCommand, Transaction};
use respkv::connection::Connection;
use respkv::database::{Database, Record};
use respkv::resp::{ParseError, RespParser};

fn set_cmd(
    key: &[u8],
    value: &[u8],
    nx: bool,
    xx: bool,
    get: bool,
    expiration: Option<Expiration>,
) -> SetCommand {
    SetCommand(SetArguments {
        key: key.to_vec(),
        value: Record::from_vec(value.to_vec()),
        nx,
        xx,
        get,
        expiration,
    })
}

fn run_set(
    db: &mut Database,
    key: &[u8],
    value: &[u8],
    nx: bool,
    xx: bool,
    get: bool,
    now: u64,
) -> (Vec<u8>, Transaction) {
    let mut conn = Connection::new();
    let t = set_cmd(key, value, nx, xx, get, None).execute(&mut conn, db, now);
    (conn.take_output(), t)
}

#[test]
fn set_nx_on_existing_key_is_refused() {
    let mut db = Database::new();
    let _ = run_set(&mut db, b"k", b"old", false, false, false, 0);
    let (out, t) = run_set(&mut db, b"k", b"new", true, false, false, 0);
    assert_eq!(out, b"$-1\r\n");
    assert_eq!(t, Transaction::Noop);
    assert_eq!(db.get(&b"k".to_vec()).unwrap().data, b"old".to_vec());
}

#[test]
fn set_nx_on_absent_key_inserts() {
    let mut db = Database::new();
    let (out, t) = run_set(&mut db, b"k", b"v", true, false, false, 0);
    assert_eq!(out, b"+OK\r\n");
    assert_eq!(t, Transaction::Write);
    assert_eq!(db.get(&b"k".to_vec()).unwrap().data, b"v".to_vec());
}

#[test]
fn set_nx_get_on_absent_key_inserts_and_replies_null() {
    let mut db = Database::new();
    let (out, t) = run_set(&mut db, b"k", b"v", true, false, true, 0);
    assert_eq!(out, b"$-1\r\n");
    assert_eq!(t, Transaction::Write);
    assert_eq!(db.get(&b"k".to_vec()).unwrap().data, b"v".to_vec());
}

#[test]
fn set_xx_on_absent_key_is_refused() {
    let mut db = Database::new();
    let (out, t) = run_set(&mut db, b"k", b"v", false, true, false, 0);
    assert_eq!(out, b"$-1\r\n");
    assert_eq!(t, Transaction::Noop);
    assert!(!db.contains_key(&b"k".to_vec()));
}

#[test]
fn set_xx_on_existing_key_overwrites() {
    let mut db = Database::new();
    let _ = run_set(&mut db, b"k", b"old", false, false, false, 0);
    let (out, t) = run_set(&mut db, b"k", b"new", false, true, false, 0);
    assert_eq!(out, b"+OK\r\n");
    assert_eq!(t, Transaction::Write);
    assert_eq!(db.get(&b"k".to_vec()).unwrap().data, b"new".to_vec());
}

#[test]
fn set_xx_get_replies_previous_value() {
    let mut db = Database::new();
    let _ = run_set(&mut db, b"k", b"old", false, false, false, 0);
    let (out, t) = run_set(&mut db, b"k", b"new", false, true, true, 0);
    assert_eq!(out, b"$3\r\nold\r\n");
    assert_eq!(t, Transaction::Write);
    assert_eq!(db.get(&b"k".to_vec()).unwrap().data, b"new".to_vec());
}

#[test]
fn set_plain_inserts_and_overwrites() {
    let mut db = Database::new();
    let (out, t) = run_set(&mut db, b"k", b"a", false, false, false, 0);
    assert_eq!(out, b"+OK\r\n");
    assert_eq!(t, Transaction::Write);
    let (out2, _) = run_set(&mut db, b"k", b"b", false, false, false, 0);
    assert_eq!(out2, b"+OK\r\n");
    assert_eq!(db.get(&b"k".to_vec()).unwrap().data, b"b".to_vec());
}

#[test]
fn set_plain_get_replies_previous_or_null() {
    let mut db = Database::new();
    let (out, t) = run_set(&mut db, b"k", b"a", false, false, true, 0);
    assert_eq!(out, b"$-1\r\n");
    assert_eq!(t, Transaction::Write);
    let (out2, t2) = run_set(&mut db, b"k", b"b", false, false, true, 0);
    assert_eq!(out2, b"$1\r\na\r\n");
    assert_eq!(t2, Transaction::Write);
}

#[test]
fn set_px_get_within_ttl_returns_value() {
    let mut db = Database::new();
    let mut conn = Connection::new();
    let cmd = set_cmd(b"k", b"v", false, false, false, Some(Expiration::Milliseconds(50)));
    let t = cmd.execute(&mut conn, &mut db, 1000);
    assert_eq!(t, Transaction::Write);
    assert_eq!(conn.take_output(), b"+OK\r\n");

    // within 50 ms the record is alive
    let mut conn2 = Connection::new();
    let g = GetCommand(GetArguments { key: b"k".to_vec() });
    let t2 = g.execute(&mut conn2, &mut db, 1049);
    assert_eq!(t2, Transaction::Read);
    assert_eq!(conn2.take_output(), b"$1\r\nv\r\n");
}

#[test]
fn set_px_get_after_ttl_deletes_and_returns_null() {
    let mut db = Database::new();
    let mut conn = Connection::new();
    let cmd = set_cmd(b"k", b"v", false, false, false, Some(Expiration::Milliseconds(50)));
    cmd.execute(&mut conn, &mut db, 1000);

    let mut conn2 = Connection::new();
    let g = GetCommand(GetArguments { key: b"k".to_vec() });
    let t = g.execute(&mut conn2, &mut db, 1050);
    assert_eq!(t, Transaction::Write);
    assert_eq!(conn2.take_output(), b"$-1\r\n");
    assert!(!db.contains_key(&b"k".to_vec()));
}

#[test]
fn set_ex_counts_in_seconds() {
    assert_eq!(Expiration::Seconds(2).as_duration(), 2000);
    assert_eq!(Expiration::Milliseconds(70).as_duration(), 70);
}

#[test]
fn get_on_absent_key_is_null() {
    let mut db = Database::new();
    let mut conn = Connection::new();
    let g = GetCommand(GetArguments { key: b"nope".to_vec() });
    let t = g.execute(&mut conn, &mut db, 0);
    assert_eq!(t, Transaction::Noop);
    assert_eq!(conn.take_output(), b"$-1\r\n");
}

#[test]
fn database_del_removes_only_its_key() {
    let mut db = Database::new();
    db.set(b"a".to_vec(), Record::from_vec(b"1".to_vec()));
    db.set(b"b".to_vec(), Record::from_vec(b"2".to_vec()));
    assert!(db.del(&b"a".to_vec()));
    assert!(!db.del(&b"a".to_vec()));
    assert!(db.contains_key(&b"b".to_vec()));
}

#[test]
fn record_expiry_is_lazy_arithmetic() {
    let mut r = Record::from_vec(b"v".to_vec());
    assert!(!r.has_expired(u64::MAX));
    r.set_expiry(100, 50);
    assert!(!r.has_expired(149));
    assert!(r.has_expired(150));
    assert!(!r.has_expired(0));
}

#[test]
fn parser_reports_each_error_kind() {
    let cases: &[(&[u8], ParseError)] = &[
        (b"#x\r\n", ParseError::InvalidByte),
        (b"+h\xffi\r\n", ParseError::InvalidUtf8),
        (b":12a\r\n", ParseError::InvalidInteger),
        (b"$-2\r\n", ParseError::InvalidLength),
        (b"%-1\r\n", ParseError::InvalidLength),
        (b",abc\r\n", ParseError::InvalidFloat),
        (b",1e999\r\n", ParseError::InvalidConversion),
        (b",Infinity\r\n", ParseError::InvalidConversion),
        (b",NaN\r\n", ParseError::InvalidConversion),
        (b"@\r\n", ParseError::InvalidByte),
        (b"$5\r\nhel", ParseError::UnexpectedEndOfInput),
        (b"*2\r\n:1\r\n", ParseError::UnexpectedEndOfInput),
    ];
    for (input, kind) in cases {
        let mut parser = RespParser::new(input);
        assert_eq!(parser.parse(), Err(*kind), "input {:?}", input);
    }
}

#[test]
fn double_finiteness_agrees_with_ieee_parsing() {
    let texts: &[&str] = &[
        "1.7976931348623157e308",
        "1.7976931348623158e308",
        "1.797693134862315808e308",
        "17976931348623158079286929473152e276",
        "0.000e999999999999",
        "2e308",
        "9e307",
        "123456789123456789123456789",
        "1e-400",
    ];
    for t in texts {
        let frame = format!(",{}\r\n", t);
        let mut parser = RespParser::new(frame.as_bytes());
        let parsed = parser.parse();
        let ieee: f64 = t.parse().unwrap();
        if ieee.is_finite() {
            assert_eq!(
                parsed,
                Ok(respkv::resp::Resp::Double(respkv::resp::DoubleRepr::Num(
                    t.as_bytes().to_vec()
                ))),
                "text {}",
                t
            );
        } else {
            assert_eq!(parsed, Err(ParseError::InvalidConversion), "text {}", t);
        }
    }
}

#[test]
fn incremental_feeding_frames_the_same_values() {
    let stream = b"+one\r\n:2\r\n$5\r\nthree\r\n*1\r\n#t\r\n";
    // all at once
    let mut all = Connection::new();
    all.feed(stream);
    let mut got_all = Vec::new();
    while let Ok(Some((v, _, _))) = all.try_read_message() {
        got_all.push(v);
    }
    // one byte at a time
    let mut one = Connection::new();
    let mut got_one = Vec::new();
    for b in stream.iter() {
        one.feed(&[*b]);
        while let Ok(Some((v, _, _))) = one.try_read_message() {
            got_one.push(v);
        }
    }
    assert_eq!(got_all.len(), 4);
    assert_eq!(got_all, got_one);
}
