//! The framed connection: a read cursor that turns raw socket bytes into
//! framed values, a write buffer that collects encoded replies, and the
//! readable/writable gates. The socket itself stays with the runtime: bytes
//! arrive through `feed` and leave through `take_output`.
use vstd::prelude::*;

use bytes::BytesMut;

use crate::bytebuf::{buf_bytes, buf_clear, buf_extend, buf_len, buf_new, buf_slice};
use crate::resp::{
    copy_range, enc_bulk, enc_line, spec_encode, spec_line, spec_parse, LineStep, ParseError,
    ParseStep, Resp, RespEncoder,
};
use crate::text::{check_utf8, is_utf8, parse_u64_text, spec_parse_u64};

verus! {

/// Why a connection operation failed.
#[derive(Debug, Clone, Copy, PartialEq, Eq, Structural)]
pub enum Error {
    ParseError(ParseError),
    IncompleteStream,
    ConnectionClosed,
    IoError,
    NotReadable,
    NotWritable,
}

/// The reply sent before a connection dies of a malformed frame.
pub open spec fn protocol_error_text() -> Seq<u8> {
    seq![69u8, 82, 82, 32, 82, 69, 83, 80, 32, 80, 114, 111, 116, 111, 99, 111, 108, 32, 69, 114,
        114, 111, 114]
}

fn protocol_error_vec() -> (r: Vec<u8>)
    ensures
        r@ == protocol_error_text(),
{
    let r: Vec<u8> = vec![69u8, 82, 82, 32, 82, 69, 83, 80, 32, 80, 114, 111, 116, 111, 99, 111,
        108, 32, 69, 114, 114, 111, 114];
    proof {
        assert(r@ =~= protocol_error_text());
    }
    r
}

/// The snapshot framing: a `$<len>` header line followed by exactly `len`
/// raw bytes, with no trailing CRLF.
pub ghost enum RdbStep {
    RDone(Seq<u8>, int),
    RMore,
    RFail(ParseError),
}

pub open spec fn spec_rdb(s: Seq<u8>, pos: int) -> RdbStep {
    if pos < 0 || pos >= s.len() {
        RdbStep::RMore
    } else if s[pos] != 36 {
        RdbStep::RFail(ParseError::InvalidByte)
    } else {
        match spec_line(s, pos + 1) {
            LineStep::LDone(h, p) => if !is_utf8(h) {
                RdbStep::RFail(ParseError::InvalidByte)
            } else {
                match spec_parse_u64(h) {
                    Option::Some(len) => if p + len > s.len() {
                        RdbStep::RMore
                    } else {
                        RdbStep::RDone(s.subrange(p, p + len), p + len)
                    },
                    Option::None => RdbStep::RFail(ParseError::InvalidByte),
                }
            },
            LineStep::LFail(ParseError::UnexpectedEndOfInput) => RdbStep::RMore,
            LineStep::LFail(k) => RdbStep::RFail(k),
        }
    }
}

/// A framed duplex endpoint: incoming bytes wait in the read cursor until a
/// whole frame is present; outgoing frames collect in the write buffer.
pub struct Connection {
    read_buf: BytesMut,
    read_pos: usize,
    write_buf: BytesMut,
    writable: bool,
    readable: bool,
}

impl Connection {
    /// The unread part of the stream starts at `read_mark` within
    /// `read_bytes`.
    pub closed spec fn read_bytes(&self) -> Seq<u8> {
        buf_bytes(self.read_buf)
    }

    pub closed spec fn read_mark(&self) -> int {
        self.read_pos as int
    }

    /// The encoded replies not yet handed to the socket.
    pub closed spec fn out_bytes(&self) -> Seq<u8> {
        buf_bytes(self.write_buf)
    }

    pub closed spec fn is_writable(&self) -> bool {
        self.writable
    }

    pub closed spec fn is_readable(&self) -> bool {
        self.readable
    }

    pub closed spec fn inv(&self) -> bool {
        0 <= self.read_pos <= buf_bytes(self.read_buf).len()
    }

    pub fn new() -> (r: Connection)
        ensures
            r.inv(),
            r.read_bytes() == Seq::<u8>::empty(),
            r.read_mark() == 0,
            r.out_bytes() == Seq::<u8>::empty(),
            r.is_writable(),
            r.is_readable(),
    {
        Connection {
            read_buf: buf_new(),
            read_pos: 0,
            write_buf: buf_new(),
            writable: true,
            readable: true,
        }
    }

    /// Append bytes read from the socket.
    pub fn feed(&mut self, data: &[u8])
        requires
            old(self).inv(),
        ensures
            final(self).inv(),
            final(self).read_bytes() == old(self).read_bytes() + data@,
            final(self).read_mark() == old(self).read_mark(),
            final(self).out_bytes() == old(self).out_bytes(),
            final(self).is_writable() == old(self).is_writable(),
            final(self).is_readable() == old(self).is_readable(),
    {
        buf_extend(&mut self.read_buf, data);
    }

    /// Try to frame one message. `Ok(None)` asks for more bytes. On success
    /// the value comes with its consumed byte count and the raw bytes
    /// themselves; a fully drained cursor is reset so the buffer cannot grow
    /// without bound. A malformed frame leaves one protocol-error reply in
    /// the write buffer (unless writes are blocked) and is fatal.
    pub fn try_read_message(&mut self) -> (r: Result<Option<(Resp, u64, Vec<u8>)>, Error>)
        requires
            old(self).inv(),
        ensures
            final(self).inv(),
            final(self).is_writable() == old(self).is_writable(),
            final(self).is_readable() == old(self).is_readable(),
            !old(self).is_readable() ==> r == Result::<Option<(Resp, u64, Vec<u8>)>, Error>::Err(
                Error::NotReadable,
            ) && *final(self) == *old(self),
            old(self).is_readable() ==> match spec_parse(
                old(self).read_bytes(),
                old(self).read_mark(),
            ) {
                ParseStep::Done(v, p) => {
                    &&& r matches Result::Ok(Option::Some(m))
                    &&& m.0@ == v
                    &&& m.1 as int == p - old(self).read_mark()
                    &&& m.2@ == old(self).read_bytes().subrange(old(self).read_mark(), p)
                    &&& final(self).out_bytes() == old(self).out_bytes()
                    &&& if p == old(self).read_bytes().len() {
                        final(self).read_bytes() == Seq::<u8>::empty() && final(self).read_mark()
                            == 0
                    } else {
                        final(self).read_bytes() == old(self).read_bytes() && final(self).read_mark() == p
                    }
                },
                ParseStep::Fail(ParseError::UnexpectedEndOfInput) => r matches Result::Ok(
                    Option::None,
                ) && *final(self) == *old(self),
                ParseStep::Fail(k) => {
                    &&& r == Result::<Option<(Resp, u64, Vec<u8>)>, Error>::Err(Error::ParseError(k))
                    &&& final(self).read_bytes() == old(self).read_bytes()
                    &&& final(self).read_mark() == old(self).read_mark()
                    &&& final(self).out_bytes() == old(self).out_bytes() + if old(self).is_writable() {
                        enc_line(45, protocol_error_text())
                    } else {
                        Seq::<u8>::empty()
                    }
                },
            },
    {
        if !self.readable {
            return Err(Error::NotReadable);
        }
        proof {
            crate::resp::lemma_parse_bounds(buf_bytes(self.read_buf), self.read_pos as int);
        }
        let data = buf_slice(&self.read_buf);
        let parsed = crate::resp::parse_value(data, self.read_pos);
        match parsed {
            Ok((v, p)) => {
                let raw = copy_range(data, self.read_pos, p);
                let count = (p - self.read_pos) as u64;
                let total = buf_len(&self.read_buf);
                if p == total {
                    buf_clear(&mut self.read_buf);
                    self.read_pos = 0;
                } else {
                    self.read_pos = p;
                }
                Ok(Some((v, count, raw)))
            },
            Err(ParseError::UnexpectedEndOfInput) => Ok(None),
            Err(k) => {
                if self.writable {
                    let msg = protocol_error_vec();
                    let mut out: Vec<u8> = Vec::new();
                    crate::resp::encode_value(
                        &Resp::SimpleError(msg),
                        &mut out,
                    );
                    buf_extend(&mut self.write_buf, out.as_slice());
                    proof {
                        assert(spec_encode(
                            crate::resp::RespVal::SimpleError(protocol_error_text()),
                        ) =~= enc_line(45, protocol_error_text()));
                    }
                } else {
                    proof {
                        assert(self.out_bytes() =~= old(self).out_bytes() + Seq::<u8>::empty());
                    }
                }
                Err(Error::ParseError(k))
            },
        }
    }

    /// Try to frame the snapshot transfer: its header and payload, with the
    /// consumed byte count. `Ok(None)` asks for more bytes.
    pub fn try_read_rdb(&mut self) -> (r: Result<Option<(Vec<u8>, u64)>, Error>)
        requires
            old(self).inv(),
        ensures
            final(self).inv(),
            final(self).is_writable() == old(self).is_writable(),
            final(self).is_readable() == old(self).is_readable(),
            final(self).out_bytes() == old(self).out_bytes(),
            !old(self).is_readable() ==> r == Result::<Option<(Vec<u8>, u64)>, Error>::Err(
                Error::NotReadable,
            ) && *final(self) == *old(self),
            old(self).is_readable() ==> match spec_rdb(
                old(self).read_bytes(),
                old(self).read_mark(),
            ) {
                RdbStep::RDone(payload, p) => {
                    &&& r matches Result::Ok(Option::Some(m))
                    &&& m.0@ == payload
                    &&& m.1 as int == p - old(self).read_mark()
                    &&& if p == old(self).read_bytes().len() {
                        final(self).read_bytes() == Seq::<u8>::empty() && final(self).read_mark()
                            == 0
                    } else {
                        final(self).read_bytes() == old(self).read_bytes() && final(self).read_mark() == p
                    }
                },
                RdbStep::RMore => r matches Result::Ok(Option::None) && *final(self) == *old(self),
                RdbStep::RFail(k) => r == Result::<Option<(Vec<u8>, u64)>, Error>::Err(
                    Error::ParseError(k),
                ) && *final(self) == *old(self),
            },
    {
        if !self.readable {
            return Err(Error::NotReadable);
        }
        let data = buf_slice(&self.read_buf);
        let n = data.len();
        let pos = self.read_pos;
        if pos >= n {
            return Ok(None);
        }
        if data[pos] != 36 {
            return Err(Error::ParseError(ParseError::InvalidByte));
        }
        proof {
            crate::resp::lemma_line_props(data@, pos as int + 1);
        }
        match crate::resp::read_line(data, pos + 1) {
            Ok((h, p)) => {
                if !check_utf8(h.as_slice()) {
                    return Err(Error::ParseError(ParseError::InvalidByte));
                }
                match parse_u64_text(h.as_slice()) {
                    Some(len) => {
                        let rem = (n - p) as u64;
                        if len > rem {
                            return Ok(None);
                        }
                        let lenu = len as usize;
                        let payload = copy_range(data, p, p + lenu);
                        let count = ((p + lenu) - pos) as u64;
                        let total = buf_len(&self.read_buf);
                        if p + lenu == total {
                            buf_clear(&mut self.read_buf);
                            self.read_pos = 0;
                        } else {
                            self.read_pos = p + lenu;
                        }
                        Ok(Some((payload, count)))
                    },
                    None => Err(Error::ParseError(ParseError::InvalidByte)),
                }
            },
            Err(ParseError::UnexpectedEndOfInput) => Ok(None),
            Err(k) => Err(Error::ParseError(k)),
        }
    }

    /// Encode one frame into the write buffer.
    pub fn write_message(&mut self, payload: &Resp) -> (r: Result<(), Error>)
        requires
            old(self).inv(),
        ensures
            final(self).inv(),
            conn_frame(*old(self), *final(self)),
            gates_frame(*old(self), *final(self)),
            if old(self).is_writable() {
                r matches Result::Ok(u) && final(self).out_bytes() == old(self).out_bytes()
                    + spec_encode(payload@)
            } else {
                r == Result::<(), Error>::Err(Error::NotWritable) && final(self).out_bytes() == old(self).out_bytes()
            },
    {
        if !self.writable {
            return Err(Error::NotWritable);
        }
        RespEncoder::encode_resp(payload, &mut self.write_buf);
        Ok(())
    }

    /// Encode one simple-string frame.
    pub fn write_str(&mut self, payload: &[u8]) -> (r: Result<(), Error>)
        requires
            old(self).inv(),
        ensures
            final(self).inv(),
            conn_frame(*old(self), *final(self)),
            gates_frame(*old(self), *final(self)),
            if old(self).is_writable() {
                r matches Result::Ok(u) && final(self).out_bytes() == old(self).out_bytes()
                    + enc_line(43, payload@)
            } else {
                r == Result::<(), Error>::Err(Error::NotWritable) && final(self).out_bytes() == old(self).out_bytes()
            },
    {
        if !self.writable {
            return Err(Error::NotWritable);
        }
        RespEncoder::encode_simple_string(payload, &mut self.write_buf);
        Ok(())
    }

    /// Encode one simple-error frame.
    pub fn write_err(&mut self, payload: &[u8]) -> (r: Result<(), Error>)
        requires
            old(self).inv(),
        ensures
            final(self).inv(),
            conn_frame(*old(self), *final(self)),
            gates_frame(*old(self), *final(self)),
            if old(self).is_writable() {
                r matches Result::Ok(u) && final(self).out_bytes() == old(self).out_bytes()
                    + enc_line(45, payload@)
            } else {
                r == Result::<(), Error>::Err(Error::NotWritable) && final(self).out_bytes() == old(self).out_bytes()
            },
    {
        if !self.writable {
            return Err(Error::NotWritable);
        }
        RespEncoder::encode_simple_error(payload, &mut self.write_buf);
        Ok(())
    }

    /// Encode one bulk-string frame.
    pub fn write_bytes(&mut self, payload: &[u8]) -> (r: Result<(), Error>)
        requires
            old(self).inv(),
        ensures
            final(self).inv(),
            conn_frame(*old(self), *final(self)),
            gates_frame(*old(self), *final(self)),
            if old(self).is_writable() {
                r matches Result::Ok(u) && final(self).out_bytes() == old(self).out_bytes()
                    + enc_bulk(36, payload@)
            } else {
                r == Result::<(), Error>::Err(Error::NotWritable) && final(self).out_bytes() == old(self).out_bytes()
            },
    {
        if !self.writable {
            return Err(Error::NotWritable);
        }
        RespEncoder::encode_bulk_string(payload, &mut self.write_buf);
        Ok(())
    }

    /// Append raw bytes outside any framing: the snapshot path. Silently a
    /// no-op when the write gate is closed.
    pub fn write(&mut self, payload: &[u8])
        requires
            old(self).inv(),
        ensures
            final(self).inv(),
            conn_frame(*old(self), *final(self)),
            gates_frame(*old(self), *final(self)),
            final(self).out_bytes() == old(self).out_bytes() + if old(self).is_writable() {
                payload@
            } else {
                Seq::<u8>::empty()
            },
    {
        if !self.writable {
            proof {
                assert(self.out_bytes() =~= old(self).out_bytes() + Seq::<u8>::empty());
            }
            return ;
        }
        buf_extend(&mut self.write_buf, payload);
    }

    /// Hand the collected output to the socket writer and clear it.
    pub fn take_output(&mut self) -> (r: Vec<u8>)
        requires
            old(self).inv(),
        ensures
            final(self).inv(),
            conn_frame(*old(self), *final(self)),
            gates_frame(*old(self), *final(self)),
            r@ == old(self).out_bytes(),
            final(self).out_bytes() == Seq::<u8>::empty(),
    {
        let data = buf_slice(&self.write_buf);
        let out = copy_range(data, 0, data.len());
        proof {
            assert(buf_bytes(self.write_buf).subrange(
                0,
                buf_bytes(self.write_buf).len() as int,
            ) =~= buf_bytes(self.write_buf));
        }
        buf_clear(&mut self.write_buf);
        out
    }

    pub fn close_write(&mut self)
        requires
            old(self).inv(),
        ensures
            final(self).inv(),
            conn_frame(*old(self), *final(self)),
            !final(self).is_writable(),
            final(self).is_readable() == old(self).is_readable(),
            final(self).out_bytes() == old(self).out_bytes(),
    {
        self.writable = false;
    }

    pub fn open_write(&mut self)
        requires
            old(self).inv(),
        ensures
            final(self).inv(),
            conn_frame(*old(self), *final(self)),
            final(self).is_writable(),
            final(self).is_readable() == old(self).is_readable(),
            final(self).out_bytes() == old(self).out_bytes(),
    {
        self.writable = true;
    }

    pub fn close_read(&mut self)
        requires
            old(self).inv(),
        ensures
            final(self).inv(),
            conn_frame(*old(self), *final(self)),
            !final(self).is_readable(),
            final(self).is_writable() == old(self).is_writable(),
            final(self).out_bytes() == old(self).out_bytes(),
    {
        self.readable = false;
    }

    pub fn open_read(&mut self)
        requires
            old(self).inv(),
        ensures
            final(self).inv(),
            conn_frame(*old(self), *final(self)),
            final(self).is_readable(),
            final(self).is_writable() == old(self).is_writable(),
            final(self).out_bytes() == old(self).out_bytes(),
    {
        self.readable = true;
    }
}

/// Writers leave the read side of a connection alone.
pub open spec fn conn_frame(pre: Connection, post: Connection) -> bool {
    post.read_bytes() == pre.read_bytes() && post.read_mark() == pre.read_mark()
}

/// The readable and writable gates are untouched.
pub open spec fn gates_frame(pre: Connection, post: Connection) -> bool {
    post.is_writable() == pre.is_writable() && post.is_readable() == pre.is_readable()
}

} // verus!

verus! {

/// The read cursor never passes the end of the buffer.
pub proof fn lemma_conn_inv_bounds(c: Connection)
    requires
        c.inv(),
    ensures
        0 <= c.read_mark() <= c.read_bytes().len(),
{
}

/// Where the read cursor stands after consuming up to `pos` of the bytes
/// that were buffered as `s`: either the cursor advanced within the same
/// buffer, or the buffer was fully drained and reset.
pub open spec fn read_run_state(s: Seq<u8>, pos: int, post: Connection) -> bool {
    (post.read_bytes() == s && post.read_mark() == pos) || (post.read_bytes()
        == Seq::<u8>::empty() && post.read_mark() == 0 && pos == s.len())
}

} // verus!
