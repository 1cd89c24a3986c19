//! The request grammar: dispatch by name, SET options, REPLCONF and PSYNC
//! forms, the command-line scan, and the numeric text parsers.
use respkv::arguments::{ArgError, ArgumentParser, CommandArgument, Expiration};
use respkv::internals::{PsyncArguments, ReplconfArguments};
use respkv::resp::Resp;
use respkv::server::ServerArguments;
use respkv::text::{parse_i64_text, parse_u64_text};

fn bulk(s: &[u8]) -> Resp {
    Resp::BulkString(s.to_vec())
}

fn get_from(parts: &[&[u8]]) -> Result<CommandArgument, ArgError> {
    let args: Vec<Resp> = parts.iter().map(|p| bulk(p)).collect();
    ArgumentParser::get_from(&args)
}

#[test]
fn dispatch_recognizes_each_command_in_any_case() {
    assert!(matches!(get_from(&[b"ping"]), Ok(CommandArgument::Ping)));
    assert!(matches!(get_from(&[b"Info"]), Ok(CommandArgument::Info)));
    assert!(matches!(
        get_from(&[b"echo", b"x"]),
        Ok(CommandArgument::Echo(_))
    ));
    assert!(matches!(
        get_from(&[b"GET", b"k"]),
        Ok(CommandArgument::Get(_))
    ));
    assert!(matches!(
        get_from(&[b"set", b"k", b"v"]),
        Ok(CommandArgument::SetOp(_))
    ));
    assert!(matches!(
        get_from(&[b"replconf", b"capa", b"psync2"]),
        Ok(CommandArgument::Replconf(ReplconfArguments::Capa(_)))
    ));
    assert!(matches!(
        get_from(&[b"psync", b"?", b"-1"]),
        Ok(CommandArgument::Psync(PsyncArguments::FullResync(_, _)))
    ));
    assert_eq!(get_from(&[b"FLUSHALL"]), Err(ArgError::UnknownCommand));
    assert_eq!(get_from(&[]), Err(ArgError::UnknownCommand));
}

#[test]
fn set_grammar_rejects_each_misuse() {
    assert_eq!(get_from(&[b"SET"]), Err(ArgError::KeyMustBeBulk));
    assert_eq!(get_from(&[b"SET", b"k"]), Err(ArgError::KeyMustBeBulk));
    assert_eq!(
        get_from(&[b"SET", b"k", b"v", b"WHAT"]),
        Err(ArgError::UnknownArgument)
    );
    assert_eq!(
        get_from(&[b"SET", b"k", b"v", b"EX"]),
        Err(ArgError::ExpectedSeconds)
    );
    assert_eq!(
        get_from(&[b"SET", b"k", b"v", b"EX", b"abc"]),
        Err(ArgError::InvalidSecondsValue)
    );
    assert_eq!(
        get_from(&[b"SET", b"k", b"v", b"PX"]),
        Err(ArgError::ExpectedMillis)
    );
    assert_eq!(
        get_from(&[b"SET", b"k", b"v", b"PX", b"-4"]),
        Err(ArgError::InvalidMillisValue)
    );
    assert_eq!(
        get_from(&[b"SET", b"k", b"v", b"PX", b"\xff\xfe"]),
        Err(ArgError::InvalidMillisFormat)
    );
    assert_eq!(
        get_from(&[b"SET", b"k", b"v", b"\xff\xfe"]),
        Err(ArgError::ArgNotUtf8)
    );
    assert_eq!(
        get_from(&[b"SET", b"k", b"v", b"NX", b"XX"]),
        Err(ArgError::SyntaxError)
    );
    // a later expiry silently wins
    match get_from(&[b"set", b"k", b"v", b"ex", b"2", b"px", b"70"]) {
        Ok(CommandArgument::SetOp(sa)) => {
            assert_eq!(sa.expiration, Some(Expiration::Milliseconds(70)));
            assert!(!sa.nx && !sa.xx && !sa.get);
        }
        other => panic!("unexpected {:?}", other.map(|_| ()).map_err(|e| e)),
    }
}

#[test]
fn set_option_values_must_be_bulk_strings() {
    let args = vec![bulk(b"SET"), bulk(b"k"), bulk(b"v"), Resp::Integer(1)];
    assert_eq!(
        ArgumentParser::get_from(&args),
        Err(ArgError::ArgsMustBeBulk)
    );
}

#[test]
fn echo_and_get_grammar_errors() {
    assert_eq!(get_from(&[b"ECHO"]), Err(ArgError::WrongNumberEcho));
    let args = vec![bulk(b"ECHO"), Resp::Integer(4)];
    assert_eq!(ArgumentParser::get_from(&args), Err(ArgError::ArgMustBeBulk));
    let args = vec![bulk(b"GET"), Resp::Null];
    assert_eq!(ArgumentParser::get_from(&args), Err(ArgError::ArgMustBeBulk));
}

#[test]
fn replconf_grammar_errors() {
    assert_eq!(get_from(&[b"REPLCONF"]), Err(ArgError::ExpectedArgument));
    assert_eq!(
        get_from(&[b"REPLCONF", b"nonsense", b"x"]),
        Err(ArgError::UnknownArgument)
    );
    assert_eq!(
        get_from(&[b"REPLCONF", b"capa"]),
        Err(ArgError::ExpectedArgument)
    );
    assert_eq!(
        get_from(&[b"REPLCONF", b"capa", b"psync2", b"extra"]),
        Err(ArgError::TooManyArguments)
    );
    let args = vec![bulk(b"REPLCONF"), bulk(b"capa"), Resp::Array(vec![])];
    assert_eq!(
        ArgumentParser::get_from(&args),
        Err(ArgError::ConversionFailed)
    );
    match get_from(&[b"REPLCONF", b"Listening-Port", b"6380"]) {
        Ok(CommandArgument::Replconf(ReplconfArguments::ListeningPort(p))) => {
            assert_eq!(p, b"6380".to_vec());
        }
        _ => panic!("expected listening-port"),
    }
}

#[test]
fn psync_grammar_errors() {
    assert_eq!(get_from(&[b"PSYNC", b"?"]), Err(ArgError::ExpectedArgument));
    assert_eq!(
        get_from(&[b"PSYNC", b"?", b"-1", b"x"]),
        Err(ArgError::TooManyArguments)
    );
}

#[test]
fn command_line_scan_takes_port_and_master() {
    let args: Vec<Vec<u8>> = vec![
        b"--verbose".to_vec(),
        b"--port".to_vec(),
        b"7000".to_vec(),
        b"--replicaof".to_vec(),
        b"localhost".to_vec(),
        b"6379".to_vec(),
    ];
    let parsed = ServerArguments::parse(args);
    assert_eq!(parsed.host, b"127.0.0.1".to_vec());
    assert_eq!(parsed.port, b"7000".to_vec());
    assert_eq!(
        parsed.replica_of,
        Some((b"localhost".to_vec(), b"6379".to_vec()))
    );
    assert!(parsed.is_replica());

    let parsed = ServerArguments::parse(Vec::new());
    assert_eq!(parsed.port, b"6379".to_vec());
    assert!(!parsed.is_replica());

    // a flag missing its value ends the scan with what stands so far
    let parsed = ServerArguments::parse(vec![b"--replicaof".to_vec(), b"onlyhost".to_vec()]);
    assert!(!parsed.is_replica());
}

#[test]
fn numeric_text_parsers_match_std() {
    let i64_cases: &[&str] = &[
        "0",
        "-1",
        "+42",
        "9223372036854775807",
        "-9223372036854775808",
        "9223372036854775808",
        "-9223372036854775809",
        "007",
        "",
        "-",
        "+",
        "1 2",
        "00000000000000000000000000009",
    ];
    for t in i64_cases {
        assert_eq!(
            parse_i64_text(t.as_bytes()),
            t.parse::<i64>().ok(),
            "i64 {:?}",
            t
        );
    }
    let u64_cases: &[&str] = &[
        "0",
        "+7",
        "18446744073709551615",
        "18446744073709551616",
        "-1",
        "99999999999999999999999",
        "0000018446744073709551615",
    ];
    for t in u64_cases {
        assert_eq!(
            parse_u64_text(t.as_bytes()),
            t.parse::<u64>().ok(),
            "u64 {:?}",
            t
        );
    }
}
