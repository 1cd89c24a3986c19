//! The codec, frame by frame: parsing each value kind, incremental input,
//! and bit-exact encoding.
use respkv::resp::{DoubleRepr, ParseError, Resp, RespEncoder, RespParser};

#[test]
fn test_parse_simple_string() {
    let data = b"+hello\r\n";
    let mut parser = RespParser::new(&data[..]);
    let result = parser.parse().unwrap();
    assert_eq!(result, Resp::SimpleString(b"hello".to_vec()));
}

#[test]
fn test_parse_simple_error() {
    let data = b"-Error message\r\n";
    let mut parser = RespParser::new(&data[..]);
    let result = parser.parse().unwrap();
    assert_eq!(result, Resp::SimpleError(b"Error message".to_vec()));
}

#[test]
fn test_parse_integer() {
    let data = b":123\r\n";
    let mut parser = RespParser::new(&data[..]);
    let result = parser.parse().unwrap();
    assert_eq!(result, Resp::Integer(123));

    let data = b":-123\r\n";
    let mut parser = RespParser::new(&data[..]);
    let result = parser.parse().unwrap();
    assert_eq!(result, Resp::Integer(-123));
}

#[test]
fn test_parse_bulk_string_null() {
    let data = b"$-1\r\n";
    let mut parser = RespParser::new(&data[..]);
    let result = parser.parse().unwrap();
    assert_eq!(result, Resp::BulkStringNull);
}

#[test]
fn test_parse_bulk_string() {
    let data = b"$5\r\nhello\r\n";
    let mut parser = RespParser::new(&data[..]);
    let result = parser.parse().unwrap();
    assert_eq!(result, Resp::BulkString(b"hello".to_vec()));
}

#[test]
fn test_parse_bulk_string_empty() {
    let data = b"$0\r\n\r\n";
    let mut parser = RespParser::new(&data[..]);
    let result = parser.parse().unwrap();
    assert_eq!(result, Resp::BulkString(b"".to_vec()));
}

#[test]
fn test_parse_array() {
    let data = b"*2\r\n$5\r\nhello\r\n$5\r\nworld\r\n";
    let mut parser = RespParser::new(&data[..]);
    let result = parser.parse().unwrap();
    assert_eq!(
        result,
        Resp::Array(vec![
            Resp::BulkString(b"hello".to_vec()),
            Resp::BulkString(b"world".to_vec())
        ])
    );
}

#[test]
fn test_parse_array_2() {
    let data = b"*5\r\n:1\r\n:2\r\n:3\r\n:4\r\n$5\r\nhello\r\n";
    let mut parser = RespParser::new(&data[..]);
    let result = parser.parse().unwrap();
    assert_eq!(
        result,
        Resp::Array(vec![
            Resp::Integer(1),
            Resp::Integer(2),
            Resp::Integer(3),
            Resp::Integer(4),
            Resp::BulkString(b"hello".to_vec())
        ])
    );
}

#[test]
fn test_parse_array_nested() {
    let data = b"*2\r\n*3\r\n:1\r\n:2\r\n:3\r\n*2\r\n+Hello\r\n-World\r\n";
    let mut parser = RespParser::new(&data[..]);
    let result = parser.parse().unwrap();
    assert_eq!(
        result,
        Resp::Array(vec![
            Resp::Array(vec![Resp::Integer(1), Resp::Integer(2), Resp::Integer(3)]),
            Resp::Array(vec![
                Resp::SimpleString(b"Hello".to_vec()),
                Resp::SimpleError(b"World".to_vec())
            ])
        ])
    );
}

#[test]
fn test_parse_array_empty() {
    let data = b"*0\r\n";
    let mut parser = RespParser::new(&data[..]);
    let result = parser.parse().unwrap();
    assert_eq!(result, Resp::Array(vec![]));
}

#[test]
fn test_parse_array_null() {
    let data = b"*-1\r\n";
    let mut parser = RespParser::new(&data[..]);
    let result = parser.parse().unwrap();
    assert_eq!(result, Resp::ArrayNull);
}

#[test]
fn test_parse_array_containing_null() {
    let data = b"*2\r\n+Hello\r\n$-1\r\n";
    let mut parser = RespParser::new(&data[..]);
    let result = parser.parse().unwrap();
    assert_eq!(
        result,
        Resp::Array(vec![
            Resp::SimpleString(b"Hello".to_vec()),
            Resp::BulkStringNull
        ])
    );
}

#[test]
fn test_parse_null() {
    let data = b"_\r\n";
    let mut parser = RespParser::new(&data[..]);
    let result = parser.parse().unwrap();
    assert_eq!(result, Resp::Null);
}

#[test]
fn test_parse_boolean_true() {
    let data = b"#t\r\n";
    let mut parser = RespParser::new(&data[..]);
    let result = parser.parse().unwrap();
    assert_eq!(result, Resp::Boolean(true));
}

#[test]
fn test_parse_boolean_false() {
    let data = b"#f\r\n";
    let mut parser = RespParser::new(&data[..]);
    let result = parser.parse().unwrap();
    assert_eq!(result, Resp::Boolean(false));
}

#[test]
fn test_parse_double() {
    let data = b",1.23\r\n";
    let mut parser = RespParser::new(&data[..]);
    let result = parser.parse().unwrap();
    assert_eq!(result, Resp::Double(DoubleRepr::Num(b"1.23".to_vec())));
    match result {
        Resp::Double(DoubleRepr::Num(t)) => {
            let v: f64 = std::str::from_utf8(&t).unwrap().parse().unwrap();
            assert_eq!(v, 1.23);
        }
        _ => unreachable!(),
    }
}

#[test]
fn test_parse_double_negative() {
    let data = b",-1.23\r\n";
    let mut parser = RespParser::new(&data[..]);
    let result = parser.parse().unwrap();
    match result {
        Resp::Double(DoubleRepr::Num(t)) => {
            let v: f64 = std::str::from_utf8(&t).unwrap().parse().unwrap();
            assert_eq!(v, -1.23);
        }
        _ => unreachable!(),
    }
}

#[test]
fn test_parse_double_int() {
    let data = b",10\r\n";
    let mut parser = RespParser::new(&data[..]);
    let result = parser.parse().unwrap();
    match result {
        Resp::Double(DoubleRepr::Num(t)) => {
            let v: f64 = std::str::from_utf8(&t).unwrap().parse().unwrap();
            assert_eq!(v, 10.0);
        }
        _ => unreachable!(),
    }
}

#[test]
fn test_parse_double_with_exponent() {
    let data = b",1.23e-5\r\n";
    let mut parser = RespParser::new(&data[..]);
    let result = parser.parse().unwrap();
    match result {
        Resp::Double(DoubleRepr::Num(t)) => {
            let v: f64 = std::str::from_utf8(&t).unwrap().parse().unwrap();
            assert_eq!(v, 0.0000123);
        }
        _ => unreachable!(),
    }
}

#[test]
#[allow(non_snake_case)]
fn test_parse_double_with_exponent_bigE() {
    let data = b",1.23E-5\r\n";
    let mut parser = RespParser::new(&data[..]);
    let result = parser.parse().unwrap();
    match result {
        Resp::Double(DoubleRepr::Num(t)) => {
            let v: f64 = std::str::from_utf8(&t).unwrap().parse().unwrap();
            assert_eq!(v, 0.0000123);
        }
        _ => unreachable!(),
    }
}

#[test]
fn test_parse_double_inf() {
    let data = b",inf\r\n";
    let mut parser = RespParser::new(&data[..]);
    let result = parser.parse().unwrap();
    assert_eq!(result, Resp::Double(DoubleRepr::Inf));
}

#[test]
fn test_parse_double_neg_inf() {
    let data = b",-inf\r\n";
    let mut parser = RespParser::new(&data[..]);
    let result = parser.parse().unwrap();
    assert_eq!(result, Resp::Double(DoubleRepr::NegInf));
}

#[test]
fn test_parse_double_nan() {
    let data = b",nan\r\n";
    let mut parser = RespParser::new(&data[..]);
    let result = parser.parse().unwrap();
    // equality comparisons with nan itself are meaningless; check the form
    if let Resp::Double(nan) = result {
        assert_eq!(nan, DoubleRepr::Nan);
        assert_eq!(f64::NAN.to_string(), "NaN");
    }
}

#[test]
fn test_parse_big_num() {
    let data = b"(3492890328409238509324850943850943825024385\r\n";
    let mut parser = RespParser::new(&data[..]);
    let result = parser.parse().unwrap();
    assert_eq!(
        result,
        Resp::BigNumber(b"3492890328409238509324850943850943825024385".to_vec())
    );
}

#[test]
fn test_parse_big_num_neg() {
    let data = b"(-3492890328409238509324850943850943825024385\r\n";
    let mut parser = RespParser::new(&data[..]);
    let result = parser.parse().unwrap();
    assert_eq!(
        result,
        Resp::BigNumber(b"-3492890328409238509324850943850943825024385".to_vec())
    );
}

#[test]
fn test_parse_bulk_err() {
    let data = b"!21\r\nSYNTAX invalid syntax\r\n";
    let mut parser = RespParser::new(&data[..]);
    let result = parser.parse().unwrap();
    assert_eq!(result, Resp::BulkError(b"SYNTAX invalid syntax".to_vec()));
}

#[test]
fn test_parse_verbatim_string() {
    let data = b"=15\r\ntxt:Some string\r\n";
    let mut parser = RespParser::new(&data[..]);
    let result = parser.parse().unwrap();
    assert_eq!(result, Resp::VerbatimString(b"txt:Some string".to_vec()));
}

#[test]
fn test_parse_map() {
    let data = b"%2\r\n+first\r\n:1\r\n+second\r\n:2\r\n";
    let mut parser = RespParser::new(&data[..]);
    let result = parser.parse().unwrap();
    assert_eq!(
        result,
        Resp::Dict(vec![
            (Resp::SimpleString(b"first".to_vec()), Resp::Integer(1)),
            (Resp::SimpleString(b"second".to_vec()), Resp::Integer(2)),
        ])
    );
}

#[test]
fn test_parse_set() {
    let data = b"~4\r\n+first\r\n:1\r\n+second\r\n:2\r\n";
    let mut parser = RespParser::new(&data[..]);
    let result = parser.parse().unwrap();
    assert_eq!(
        result,
        Resp::SetOf(vec![
            Resp::SimpleString(b"first".to_vec()),
            Resp::Integer(1),
            Resp::SimpleString(b"second".to_vec()),
            Resp::Integer(2),
        ])
    );
}

#[test]
fn test_parse_push() {
    let data = b">2\r\n+first\r\n:1\r\n";
    let mut parser = RespParser::new(&data[..]);
    let result = parser.parse().unwrap();
    assert_eq!(
        result,
        Resp::Push(vec![Resp::SimpleString(b"first".to_vec()), Resp::Integer(1),])
    );
}

#[test]
fn test_parse_partial_stream() {
    let data = b"+hello\r\n+world\r\n+partial...";
    let mut parser = RespParser::new(&data[..]);
    let result1 = parser.parse();
    let result2 = parser.parse();
    let result3 = parser.parse();
    let _result4 = parser.parse();
    assert_eq!(result1.unwrap(), Resp::SimpleString(b"hello".to_vec()));
    assert_eq!(result2.unwrap(), Resp::SimpleString(b"world".to_vec()));
    assert_eq!(result3, Err(ParseError::UnexpectedEndOfInput));
    assert_eq!(result3, Err(ParseError::UnexpectedEndOfInput));
}

#[test]
fn test_check_next_parse() {
    let data = b"+hello\r\n+world\r\n+partial...";
    let mut parser = RespParser::new(&data[..]);
    let result1 = parser.check();
    assert_eq!(result1.unwrap(), Resp::SimpleString(b"hello".to_vec()));
    assert_eq!(parser.cursor(), 0);
}

#[test]
fn test_encode_simple_string() {
    let data = Resp::SimpleString(b"hello".to_vec());
    let result = RespEncoder::encode(&data);
    assert_eq!(result.to_vec(), b"+hello\r\n");
}

#[test]
fn test_encode_simple_error() {
    let data = Resp::SimpleError(b"Error message".to_vec());
    let result = RespEncoder::encode(&data);
    assert_eq!(result.to_vec(), b"-Error message\r\n");
}

#[test]
fn test_encode_integer() {
    let data = Resp::Integer(123);
    let result = RespEncoder::encode(&data);
    assert_eq!(result.to_vec(), b":123\r\n");
}

#[test]
fn test_encoder_integer_negative() {
    let data = Resp::Integer(-123);
    let result = RespEncoder::encode(&data);
    assert_eq!(result.to_vec(), b":-123\r\n");
}

#[test]
fn test_encode_bulk_string() {
    let data = Resp::BulkString(b"hello".to_vec());
    let result = RespEncoder::encode(&data);
    assert_eq!(result.to_vec(), b"$5\r\nhello\r\n");
}

#[test]
fn test_encode_bulk_string_null() {
    let data = Resp::BulkStringNull;
    let result = RespEncoder::encode(&data);
    assert_eq!(result.to_vec(), b"$-1\r\n");
}

#[test]
fn test_encode_array() {
    let data = Resp::Array(vec![
        Resp::BulkString(b"hello".to_vec()),
        Resp::BulkString(b"world".to_vec()),
    ]);
    let result = RespEncoder::encode(&data);
    assert_eq!(result.to_vec(), b"*2\r\n$5\r\nhello\r\n$5\r\nworld\r\n");
}

#[test]
fn test_encode_array_null() {
    let data = Resp::ArrayNull;
    let result = RespEncoder::encode(&data);
    assert_eq!(result.to_vec(), b"*-1\r\n");
}

#[test]
fn test_encode_null() {
    let data = Resp::Null;
    let result = RespEncoder::encode(&data);
    assert_eq!(result.to_vec(), b"_\r\n");
}

#[test]
fn test_encode_boolean_true() {
    let data = Resp::Boolean(true);
    let result = RespEncoder::encode(&data);
    assert_eq!(result.to_vec(), b"#t\r\n");
}

#[test]
fn test_encode_boolean_false() {
    let data = Resp::Boolean(false);
    let result = RespEncoder::encode(&data);
    assert_eq!(result.to_vec(), b"#f\r\n");
}

#[test]
fn test_encode_double() {
    let data = Resp::Double(DoubleRepr::Num(b"1.23e0".to_vec()));
    let result = RespEncoder::encode(&data);
    assert_eq!(result.to_vec(), b",1.23e0\r\n");
}

#[test]
fn test_encode_double_small() {
    let data = Resp::Double(DoubleRepr::Num(b"1.23e-5".to_vec()));
    let result = RespEncoder::encode(&data);
    assert_eq!(result.to_vec(), b",1.23e-5\r\n");
}

#[test]
fn test_encode_double_inf() {
    let data = Resp::Double(DoubleRepr::Inf);
    let result = RespEncoder::encode(&data);
    assert_eq!(result.to_vec(), b",inf\r\n");
}

#[test]
fn test_encode_double_neg_inf() {
    let data = Resp::Double(DoubleRepr::NegInf);
    let result = RespEncoder::encode(&data);
    assert_eq!(result.to_vec(), b",-inf\r\n");
}

#[test]
fn test_encode_double_nan() {
    let data = Resp::Double(DoubleRepr::Nan);
    let result = RespEncoder::encode(&data);
    assert_eq!(result.to_vec(), b",nan\r\n");
}

#[test]
fn test_encode_big_number() {
    let data = Resp::BigNumber(b"3492890328409238509324850943850943825024385".to_vec());
    let result = RespEncoder::encode(&data);
    assert_eq!(
        result.to_vec(),
        b"(3492890328409238509324850943850943825024385\r\n"
    );
}

#[test]
fn test_encode_bulk_error() {
    let data = Resp::BulkError(b"SYNTAX invalid syntax".to_vec());
    let result = RespEncoder::encode(&data);
    assert_eq!(result.to_vec(), b"!21\r\nSYNTAX invalid syntax\r\n");
}

#[test]
fn test_encode_verbatim_string() {
    let data = Resp::VerbatimString(b"txt:Some string".to_vec());
    let result = RespEncoder::encode(&data);
    assert_eq!(result.to_vec(), b"=15\r\ntxt:Some string\r\n");
}

#[test]
fn test_encode_map() {
    let data = Resp::Dict(vec![
        (Resp::SimpleString(b"first".to_vec()), Resp::Integer(1)),
        (Resp::SimpleString(b"second".to_vec()), Resp::Integer(2)),
    ]);
    let result = RespEncoder::encode(&data);
    assert_eq!(result.to_vec(), b"%2\r\n+first\r\n:1\r\n+second\r\n:2\r\n");
}

#[test]
fn test_encode_set() {
    let data = Resp::SetOf(vec![
        Resp::SimpleString(b"first".to_vec()),
        Resp::Integer(1),
        Resp::SimpleString(b"second".to_vec()),
        Resp::Integer(2),
    ]);
    let result = RespEncoder::encode(&data);
    assert_eq!(result.to_vec(), b"~4\r\n+first\r\n:1\r\n+second\r\n:2\r\n");
}

#[test]
fn test_encode_push() {
    let data = Resp::Push(vec![Resp::SimpleString(b"first".to_vec()), Resp::Integer(1)]);
    let result = RespEncoder::encode(&data);
    assert_eq!(result.to_vec(), b">2\r\n+first\r\n:1\r\n");
}
