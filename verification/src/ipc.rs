use vstd::prelude::*;

use vstd::bytes::{spec_u64_from_le_bytes, spec_u64_to_le_bytes, u64_from_le_bytes, u64_to_le_bytes};

verus! {

/// First byte of a request sent by a client.
pub const MESSAGE_CLIENT_REQ_START: u8 = 0xc1;

/// First byte of a response sent by a client.
pub const MESSAGE_CLIENT_RSP_START: u8 = 0xc2;

/// First byte of a request sent by a server.
pub const MESSAGE_SERVER_REQ_START: u8 = 0x51;

/// First byte of a response sent by a server.
pub const MESSAGE_SERVER_RSP_START: u8 = 0x52;

/// Last byte of every message.
pub const MESSAGE_END: u8 = 0x0e;

/// The byte that announces an encoded `u64` (followed by its eight bytes, least
/// significant first).
pub const U64_TAG: u8 = 0x08;

/// Errors of the IPC layer.
#[derive(Debug, Clone, PartialEq, Eq)]
pub enum IpcError {
    InvalidMagic { given: u8, expected: u8 },
    GlueError,
    BufferInvalidSize,
    Utf8ConvertError,
    InvalidTypeConvert,
    NotReady,
    InvalidMessage(Vec<u8>),
    InvalidHash { given: u64, expected: u64 },
}

pub type IpcResult<T> = core::result::Result<T, IpcError>;

/// `b` is one of the four bytes that start a message.
pub open spec fn is_start_byte(b: u8) -> bool {
    b == MESSAGE_SERVER_RSP_START || b == MESSAGE_SERVER_REQ_START || b == MESSAGE_CLIENT_RSP_START
        || b == MESSAGE_CLIENT_REQ_START
}

fn start_byte(b: u8) -> (r: bool)
    ensures
        r == is_start_byte(b),
{
    b == MESSAGE_SERVER_RSP_START || b == MESSAGE_SERVER_REQ_START || b == MESSAGE_CLIENT_RSP_START
        || b == MESSAGE_CLIENT_REQ_START
}

/// The nine bytes that encode `v`.
pub open spec fn u64_wire(v: u64) -> Seq<u8> {
    seq![U64_TAG] + spec_u64_to_le_bytes(v)
}

/// The value encoded by nine bytes.
pub open spec fn decode_u64_spec(s: Seq<u8>) -> IpcResult<u64> {
    if s[0] != U64_TAG {
        Err(IpcError::InvalidTypeConvert)
    } else {
        Ok(spec_u64_from_le_bytes(s.subrange(1, 9)))
    }
}

/// Decode nine bytes as a `u64`.
pub fn decode_u64(s: &[u8]) -> (r: IpcResult<u64>)
    requires
        s@.len() == 9,
    ensures
        r == decode_u64_spec(s@),
{
    if s[0] != U64_TAG {
        return Err(IpcError::InvalidTypeConvert);
    }
    let body = vstd::slice::slice_subrange(s, 1, 9);
    Ok(u64_from_le_bytes(body))
}

/// Append the nine bytes that encode `v` to `out`.
pub fn encode_u64(v: u64, out: &mut Vec<u8>)
    ensures
        final(out)@ == old(out)@ + u64_wire(v),
{
    out.push(U64_TAG);
    let bytes = u64_to_le_bytes(v);
    let mut i: usize = 0;
    let ghost start = out@;
    while i < 8
        invariant
            i <= 8,
            bytes@ == spec_u64_to_le_bytes(v),
            bytes@.len() == 8,
            out@ == start + bytes@.subrange(0, i as int),
        decreases 8 - i,
    {
        out.push(bytes[i]);
        i = i + 1;
        assert(out@ =~= start + bytes@.subrange(0, i as int));
    }
    assert(bytes@.subrange(0, 8) =~= bytes@);
    assert(out@ =~= old(out)@ + u64_wire(v));
}

/// Ipc Sender (TX)
///
/// This trait supports writting bytes over IPC.
pub trait Sender {
    /// The bytes the sender has taken so far, in order.
    spec fn sent(&self) -> Seq<u8>;

    /// Send `bytes`: once it succeeds they follow what was sent before.
    fn send(&mut self, bytes: &[u8]) -> (r: IpcResult<()>)
        ensures
            r is Ok ==> final(self).sent() == old(self).sent() + bytes@,
    ;
}

/// Ipc Receiver (RX)
///
/// This trait supports reading bytes from IPC.
pub trait Receiver {
    /// The bytes the receiver has still to hand out, in order.
    spec fn incoming(&self) -> Seq<u8>;

    /// Read into the front of `bytes`: a read of `n` bytes hands out the next `n` incoming
    /// bytes, and no more than fit.
    fn recv(&mut self, bytes: &mut [u8]) -> (r: IpcResult<usize>)
        ensures
            final(bytes)@.len() == old(bytes)@.len(),
            r matches Ok(n) ==> {
                &&& n <= old(bytes)@.len()
                &&& n <= old(self).incoming().len()
                &&& final(bytes)@.subrange(0, n as int) == old(self).incoming().subrange(0, n as int)
                &&& final(self).incoming() == old(self).incoming().subrange(
                    n as int,
                    old(self).incoming().len() as int,
                )
            },
    ;

    /// Receive exactly `bytes.len()` bytes; a shorter read is `BufferInvalidSize`.
    fn recv_exact(&mut self, bytes: &mut [u8]) -> (r: IpcResult<()>)
        ensures
            final(bytes)@.len() == old(bytes)@.len(),
            r is Ok ==> old(bytes)@.len() <= old(self).incoming().len() && final(bytes)@
                == old(self).incoming().subrange(0, old(bytes)@.len() as int) && final(self).incoming()
                == old(self).incoming().subrange(
                old(bytes)@.len() as int,
                old(self).incoming().len() as int,
            ),
    {
        let read = self.recv(bytes);
        let r = exact_read_result(read, bytes.len());
        proof {
            if r is Ok {
                assert(bytes@.subrange(0, bytes@.len() as int) =~= bytes@);
            }
        }
        r
    }
}

/// What a read that had to fill `len` bytes gives, from what the receiver answered: a
/// read of exactly `len` bytes is `Ok`, a read of any other count is `BufferInvalidSize`,
/// and an error of the receiver is handed on.
pub fn exact_read_result(read: IpcResult<usize>, len: usize) -> (r: IpcResult<()>)
    ensures
        read == Ok::<usize, IpcError>(len) ==> r == Ok::<(), IpcError>(()),
        read matches Ok(n) && n != len ==> r == Err::<(), IpcError>(IpcError::BufferInvalidSize),
        read matches Err(e) ==> r == Err::<(), IpcError>(e),
{
    match read {
        Ok(n) => {
            if n == len {
                Ok(())
            } else {
                Err(IpcError::BufferInvalidSize)
            }
        },
        Err(err) => Err(err),
    }
}

/// A header-valid IPC message
///
/// This structure represents an ipc message with a valid header. This structure
/// does not, however, verify the contents of `data` -- during parsing that is
/// further converted into the final type.
#[derive(Debug)]
pub struct IpcMessage {
    pub start_byte: u8,
    pub endpoint_hash: u64,
    pub target_id: u64,
    pub data: Vec<u8>,
    pub end_byte: u8,
}

/// The bytes of a message on the wire: the start byte, the endpoint hash, the target, the
/// length of the data, the data, and the end byte.
pub open spec fn message_wire(start: u8, hash: u64, target: u64, data: Seq<u8>, end: u8) -> Seq<u8> {
    seq![start] + u64_wire(hash) + u64_wire(target) + u64_wire(data.len() as u64) + data + seq![end]
}

impl IpcMessage {
    /// Append the message's bytes to `out`; the result is the number of bytes written.
    pub fn serialize_into(&self, out: &mut Vec<u8>) -> (r: usize)
        requires
            self.data@.len() + 29 <= usize::MAX,
        ensures
            final(out)@ == old(out)@ + message_wire(
                self.start_byte,
                self.endpoint_hash,
                self.target_id,
                self.data@,
                self.end_byte,
            ),
            r == self.data@.len() + 29,
    {
        let ghost start = out@;
        out.push(self.start_byte);
        encode_u64(self.endpoint_hash, out);
        encode_u64(self.target_id, out);
        encode_u64(self.data.len() as u64, out);
        let ghost mid = out@;
        let mut i: usize = 0;
        while i < self.data.len()
            invariant
                i <= self.data@.len(),
                out@ == mid + self.data@.subrange(0, i as int),
            decreases self.data@.len() - i,
        {
            out.push(self.data[i]);
            i = i + 1;
            assert(out@ =~= mid + self.data@.subrange(0, i as int));
        }
        out.push(self.end_byte);
        assert(self.data@.subrange(0, self.data@.len() as int) =~= self.data@);
        assert(out@ =~= start + message_wire(
            self.start_byte,
            self.endpoint_hash,
            self.target_id,
            self.data@,
            self.end_byte,
        ));
        self.data.len() + 29
    }
}

/// What reading the start byte of the stream `s` gives.
pub open spec fn start_byte_of(s: Seq<u8>) -> IpcResult<u8> {
    if s.len() == 0 {
        Err(IpcError::NotReady)
    } else if is_start_byte(s[0]) {
        Ok(s[0])
    } else {
        Err(IpcError::InvalidTypeConvert)
    }
}

/// What reading the `u64` at bytes `[at, at + 9)` of the stream gives.
pub open spec fn u64_at(s: Seq<u8>, at: int) -> IpcResult<u64> {
    if s.len() < at + 9 {
        Err(IpcError::NotReady)
    } else {
        decode_u64_spec(s.subrange(at, at + 9))
    }
}

/// What reading the data length of the stream gives.
pub open spec fn data_len_of(s: Seq<u8>) -> IpcResult<usize> {
    match u64_at(s, 19) {
        Ok(v) => Ok(v as usize),
        Err(e) => Err(e),
    }
}

/// What reading the data of the stream gives.
pub open spec fn data_of(s: Seq<u8>) -> IpcResult<Seq<u8>> {
    match data_len_of(s) {
        Ok(n) => if s.len() < 28 + n {
            Err(IpcError::NotReady)
        } else {
            Ok(s.subrange(28, 28 + n))
        },
        Err(e) => Err(e),
    }
}

/// What reading the end byte of the stream gives.
pub open spec fn end_byte_of(s: Seq<u8>) -> IpcResult<u8> {
    match data_len_of(s) {
        Ok(n) => if s.len() <= 28 + n {
            Err(IpcError::NotReady)
        } else if s[28 + n] == MESSAGE_END {
            Ok(MESSAGE_END)
        } else {
            Err(IpcError::InvalidTypeConvert)
        },
        Err(e) => Err(e),
    }
}

/// The message at the front of the stream, or the first error met reading it (start
/// byte, endpoint hash, target, data, end byte, in this order).
pub open spec fn parse_message(s: Seq<u8>) -> IpcResult<(u8, u64, u64, Seq<u8>, u8)> {
    match start_byte_of(s) {
        Err(e) => Err(e),
        Ok(start) => match u64_at(s, 1) {
            Err(e) => Err(e),
            Ok(hash) => match u64_at(s, 10) {
                Err(e) => Err(e),
                Ok(target) => match data_of(s) {
                    Err(e) => Err(e),
                    Ok(data) => match end_byte_of(s) {
                        Err(e) => Err(e),
                        Ok(end) => Ok((start, hash, target, data, end)),
                    },
                },
            },
        },
    }
}

/// Where the stream is cut after a damaged message: at the first start byte, or just after
/// the first end byte, whichever comes first; the whole stream if there is neither.
pub open spec fn resync_point(s: Seq<u8>) -> int
    decreases s.len(),
{
    if s.len() == 0 {
        0
    } else if is_start_byte(s[0]) {
        0
    } else if s[0] == MESSAGE_END {
        1
    } else {
        1 + resync_point(s.subrange(1, s.len() as int))
    }
}

/// What one read into a chunk buffer makes of the received bytes: the result, and the
/// bytes received afterwards. Reading nothing, `NotReady` or `BufferInvalidSize` is
/// `Ok(false)`; a read that claims more bytes than the buffer holds is `BufferInvalidSize`;
/// a read of `n` bytes adds the first `n` bytes of the chunk and is `Ok(true)`; any other
/// error is handed on. Only a read of bytes changes what was received.
pub open spec fn chunk_step(pending: Seq<u8>, read: IpcResult<usize>, chunk: Seq<u8>) -> (
    IpcResult<bool>,
    Seq<u8>,
) {
    match read {
        Ok(n) => if n == 0 {
            (Ok(false), pending)
        } else if n > chunk.len() {
            (Err(IpcError::BufferInvalidSize), pending)
        } else {
            (Ok(true), pending + chunk.subrange(0, n as int))
        },
        Err(e) => if e == IpcError::NotReady || e == IpcError::BufferInvalidSize {
            (Ok(false), pending)
        } else {
            (Err(e), pending)
        },
    }
}

/// A unknown IPC message(s) whos contents are in-progress of being parsed.
pub struct RawIpcBuffer(Vec<u8>);

impl View for RawIpcBuffer {
    type V = Seq<u8>;

    closed spec fn view(&self) -> Seq<u8> {
        self.0@
    }
}

impl RawIpcBuffer {
    /// Create a new empty IPC buffer
    pub fn new() -> (r: Self)
        ensures
            r@ == Seq::<u8>::empty(),
    {
        Self(Vec::new())
    }

    /// Add bytes to the end of the stream
    pub fn append(&mut self, bytes: &[u8])
        ensures
            final(self)@ == old(self)@ + bytes@,
    {
        let ghost start = self@;
        let mut i: usize = 0;
        while i < bytes.len()
            invariant
                i <= bytes@.len(),
                self@ == start + bytes@.subrange(0, i as int),
            decreases bytes@.len() - i,
        {
            self.0.push(bytes[i]);
            i = i + 1;
            assert(self@ =~= start + bytes@.subrange(0, i as int));
        }
        assert(bytes@.subrange(0, bytes@.len() as int) =~= bytes@);
    }

    /// Take what one read into `chunk` gave (see `chunk_step`).
    pub fn take_chunk(&mut self, read: IpcResult<usize>, chunk: &[u8]) -> (r: IpcResult<bool>)
        ensures
            (r, final(self)@) == chunk_step(old(self)@, read, chunk@),
    {
        match read {
            Ok(0) => Ok(false),
            Err(IpcError::BufferInvalidSize) => Ok(false),
            Err(IpcError::NotReady) => Ok(false),
            Ok(n) => {
                if n > chunk.len() {
                    return Err(IpcError::BufferInvalidSize);
                }
                let part = vstd::slice::slice_subrange(chunk, 0, n);
                self.append(part);
                Ok(true)
            },
            Err(other) => Err(other),
        }
    }

    /// Get the starting byte of the message
    ///
    /// # Note
    /// This function does not verify the rest of the message, only that the
    /// start byte is one of the four possible values.
    pub fn get_start_byte(&self) -> (r: IpcResult<u8>)
        ensures
            r == start_byte_of(self@),
    {
        if self.0.len() == 0 {
            return Err(IpcError::NotReady);
        }
        let b = self.0[0];
        if start_byte(b) {
            Ok(b)
        } else {
            Err(IpcError::InvalidTypeConvert)
        }
    }

    fn u64_at(&self, at: usize) -> (r: IpcResult<u64>)
        requires
            at <= 19,
        ensures
            r == u64_at(self@, at as int),
    {
        if self.0.len() < at + 9 {
            return Err(IpcError::NotReady);
        }
        let s = vstd::slice::slice_subrange(self.0.as_slice(), at, at + 9);
        decode_u64(s)
    }

    /// The endpoint hash of the message at the front of the stream.
    pub fn get_endpoint_hash(&self) -> (r: IpcResult<u64>)
        ensures
            r == u64_at(self@, 1),
    {
        self.u64_at(1)
    }

    /// The target of the message at the front of the stream.
    pub fn get_target_id(&self) -> (r: IpcResult<u64>)
        ensures
            r == u64_at(self@, 10),
    {
        self.u64_at(10)
    }

    /// The length of the data of the message at the front of the stream.
    pub fn get_data_len(&self) -> (r: IpcResult<usize>)
        ensures
            r == data_len_of(self@),
    {
        match self.u64_at(19) {
            Ok(v) => Ok(v as usize),
            Err(e) => Err(e),
        }
    }

    /// The data of the message at the front of the stream.
    pub fn get_data(&self) -> (r: IpcResult<Vec<u8>>)
        ensures
            match data_of(self@) {
                Ok(d) => r is Ok && r->Ok_0@ == d,
                Err(e) => r == Err::<Vec<u8>, IpcError>(e),
            },
    {
        let n = match self.get_data_len() {
            Ok(n) => n,
            Err(e) => {
                return Err(e);
            },
        };
        let len = self.0.len();
        if len < 28 || len - 28 < n {
            return Err(IpcError::NotReady);
        }
        let mut out: Vec<u8> = Vec::new();
        let mut i: usize = 0;
        while i < n
            invariant
                i <= n,
                28 + n <= len,
                len == self@.len(),
                out@ == self@.subrange(28, 28 + i),
            decreases n - i,
        {
            out.push(self.0[28 + i]);
            i = i + 1;
            assert(out@ =~= self@.subrange(28, 28 + i));
        }
        Ok(out)
    }

    /// The end byte of the message at the front of the stream.
    pub fn get_end_byte(&self) -> (r: IpcResult<u8>)
        ensures
            r == end_byte_of(self@),
    {
        let n = match self.get_data_len() {
            Ok(n) => n,
            Err(e) => {
                return Err(e);
            },
        };
        let len = self.0.len();
        if len <= 28 || len - 28 <= n {
            return Err(IpcError::NotReady);
        }
        if self.0[28 + n] == MESSAGE_END {
            Ok(MESSAGE_END)
        } else {
            Err(IpcError::InvalidTypeConvert)
        }
    }

    /// Read the message at the front of the stream without removing it.
    pub fn populate_ipc_message(&self) -> (r: IpcResult<IpcMessage>)
        ensures
            match parse_message(self@) {
                Ok(m) => r is Ok && r->Ok_0.start_byte == m.0 && r->Ok_0.endpoint_hash == m.1
                    && r->Ok_0.target_id == m.2 && r->Ok_0.data@ == m.3 && r->Ok_0.end_byte == m.4,
                Err(e) => r == Err::<IpcMessage, IpcError>(e),
            },
    {
        let start_byte = match self.get_start_byte() {
            Ok(b) => b,
            Err(e) => {
                return Err(e);
            },
        };
        let endpoint_hash = match self.get_endpoint_hash() {
            Ok(v) => v,
            Err(e) => {
                return Err(e);
            },
        };
        let target_id = match self.get_target_id() {
            Ok(v) => v,
            Err(e) => {
                return Err(e);
            },
        };
        let data = match self.get_data() {
            Ok(v) => v,
            Err(e) => {
                return Err(e);
            },
        };
        let end_byte = match self.get_end_byte() {
            Ok(v) => v,
            Err(e) => {
                return Err(e);
            },
        };
        Ok(IpcMessage { start_byte, endpoint_hash, target_id, data, end_byte })
    }

    fn resync(&self) -> (r: usize)
        ensures
            r == resync_point(self@),
    {
        assert(self@.subrange(0, self@.len() as int) =~= self@);
        let mut i: usize = 0;
        while i < self.0.len()
            invariant
                i <= self@.len(),
                resync_point(self@) == i + resync_point(self@.subrange(i as int, self@.len() as int)),
            decreases self@.len() - i,
        {
            let b = self.0[i];
            let ghost rest = self@.subrange(i as int, self@.len() as int);
            assert(rest[0] == b);
            if start_byte(b) {
                return i;
            }
            if b == MESSAGE_END {
                return i + 1;
            }
            assert(rest.subrange(1, rest.len() as int) =~= self@.subrange(i + 1, self@.len() as int));
            i = i + 1;
        }
        i
    }

    /// Get and pop this message off the message stream
    ///
    /// # Note
    /// This will not always remove data from the data stream. For example, if the
    /// status of the convert was `IpcError::NotReady` then the stream will simply
    /// just return `NotReady` until more data bytes arrive.
    ///
    /// A whole message is removed, and nothing after it. After a damaged message the
    /// stream is cut at its resync point.
    pub fn pop_message(&mut self) -> (r: IpcResult<IpcMessage>)
        ensures
            match parse_message(old(self)@) {
                Err(IpcError::NotReady) => r == Err::<IpcMessage, IpcError>(IpcError::NotReady)
                    && final(self)@ == old(self)@,
                Ok(m) => {
                    &&& r is Ok
                    &&& r->Ok_0.start_byte == m.0
                    &&& r->Ok_0.endpoint_hash == m.1
                    &&& r->Ok_0.target_id == m.2
                    &&& r->Ok_0.data@ == m.3
                    &&& r->Ok_0.end_byte == m.4
                    &&& final(self)@ == old(self)@.subrange(
                        m.3.len() + 29int,
                        old(self)@.len() as int,
                    )
                },
                Err(e) => r == Err::<IpcMessage, IpcError>(e) && final(self)@ == old(self)@.subrange(
                    resync_point(old(self)@),
                    old(self)@.len() as int,
                ),
            },
    {
        match self.populate_ipc_message() {
            Ok(valid) => {
                let n = valid.data.len();
                let len = self.0.len();
                proof {
                    lemma_parsed_len(self@);
                    assert(parse_message(self@) is Ok);
                    assert(n == parse_message(self@)->Ok_0.3.len());
                    assert(n + 29 <= len);
                }
                self.drop_front(n + 29);
                Ok(valid)
            },
            Err(IpcError::NotReady) => Err(IpcError::NotReady),
            Err(invalid) => {
                let remove_end = self.resync();
                proof {
                    lemma_resync_bound(self@);
                }
                self.drop_front(remove_end);
                Err(invalid)
            },
        }
    }

    fn drop_front(&mut self, n: usize)
        requires
            n <= old(self)@.len(),
        ensures
            final(self)@ == old(self)@.subrange(n as int, old(self)@.len() as int),
    {
        let mut rest: Vec<u8> = Vec::new();
        let mut i: usize = n;
        while i < self.0.len()
            invariant
                n <= i <= self@.len(),
                rest@ == self@.subrange(n as int, i as int),
            decreases self@.len() - i,
        {
            rest.push(self.0[i]);
            i = i + 1;
            assert(rest@ =~= self@.subrange(n as int, i as int));
        }
        self.0 = rest;
    }
}

/// Conversion from/to IPC Sockets
///
/// This trait allows a type to be converted into and from the IPC
/// portal. It is required that all types transfered over IPC implement
/// this trait.
pub trait PortalConvert: Sized {
    /// The bytes that stand for the value on the wire.
    spec fn wire(&self) -> Seq<u8>;

    /// Serialize this type for transfer: once it succeeds, the value's bytes follow what
    /// `send` took before, and the result is their number.
    fn serialize<S: Sender>(&self, send: &mut S) -> (r: Result<usize, IpcError>)
        ensures
            r is Ok ==> r->Ok_0 == self.wire().len() && final(send).sent() == old(send).sent()
                + self.wire(),
    ;

    /// Deserialize the transfered bytes into `Self`: a value read is one whose bytes were
    /// the next ones incoming, and they are taken.
    fn deserialize<R: Receiver>(recv: &mut R) -> (r: Result<Self, IpcError>)
        ensures
            r is Ok ==> {
                let w = r->Ok_0.wire();
                &&& w.len() <= old(recv).incoming().len()
                &&& old(recv).incoming().subrange(0, w.len() as int) == w
                &&& final(recv).incoming() == old(recv).incoming().subrange(
                    w.len() as int,
                    old(recv).incoming().len() as int,
                )
            },
    ;
}

impl Sender for Vec<u8> {
    open spec fn sent(&self) -> Seq<u8> {
        self@
    }

    fn send(&mut self, bytes: &[u8]) -> (r: IpcResult<()>)
        ensures
            final(self)@ == old(self)@ + bytes@,
            r is Ok,
    {
        let ghost start = self@;
        let mut i: usize = 0;
        while i < bytes.len()
            invariant
                i <= bytes@.len(),
                self@ == start + bytes@.subrange(0, i as int),
            decreases bytes@.len() - i,
        {
            self.push(bytes[i]);
            i = i + 1;
            assert(self@ =~= start + bytes@.subrange(0, i as int));
        }
        assert(bytes@.subrange(0, bytes@.len() as int) =~= bytes@);
        Ok(())
    }
}

/// Reads bytes from the front of a byte string.
pub struct ByteReader {
    bytes: Vec<u8>,
    pos: usize,
}

impl ByteReader {
    /// A reader over `bytes`.
    pub fn new(bytes: &[u8]) -> (r: Self)
        ensures
            r.rest() == bytes@,
    {
        let mut v: Vec<u8> = Vec::new();
        let _ = v.send(bytes);
        ByteReader { bytes: v, pos: 0 }
    }

    /// The bytes not read yet.
    pub closed spec fn rest(&self) -> Seq<u8> {
        self.bytes@.subrange(self.pos as int, self.bytes@.len() as int)
    }

    #[verifier::type_invariant]
    closed spec fn wf(&self) -> bool {
        self.pos <= self.bytes@.len()
    }
}

/// The number of bytes a read into a buffer of `room` bytes takes from `available` bytes.
pub open spec fn read_count(room: int, available: int) -> int {
    if room < available {
        room
    } else {
        available
    }
}

impl Receiver for ByteReader {
    closed spec fn incoming(&self) -> Seq<u8> {
        self.rest()
    }

    /// Copy as many of the unread bytes as fit into `bytes`; the result is how many.
    fn recv(&mut self, bytes: &mut [u8]) -> (r: IpcResult<usize>)
        ensures
            ({
                let n = read_count(old(bytes)@.len() as int, old(self).rest().len() as int);
                &&& r == Ok::<usize, IpcError>(n as usize)
                &&& final(bytes)@ == old(self).rest().subrange(0, n) + old(bytes)@.subrange(
                    n,
                    old(bytes)@.len() as int,
                )
                &&& final(self).rest() == old(self).rest().subrange(n, old(self).rest().len() as int)
            }),
    {
        proof {
            use_type_invariant(&*self);
        }
        let ghost rest0 = self.rest();
        let ghost b0 = bytes@;
        let ghost src = self.bytes@;
        let ghost pos0 = self.pos as int;
        let mut n: usize = 0;
        let len = bytes.len();
        while n < len && self.pos < self.bytes.len()
            invariant
                n <= len,
                bytes@.len() == len,
                len == b0.len(),
                self.bytes@ == src,
                self.pos == pos0 + n,
                0 <= pos0,
                self.pos <= src.len(),
                rest0 == src.subrange(pos0, src.len() as int),
                n <= rest0.len(),
                bytes@ == rest0.subrange(0, n as int) + b0.subrange(n as int, len as int),
            decreases len - n,
        {
            proof {
                assert(self.bytes@[self.pos as int] == rest0[n as int]);
            }
            bytes[n] = self.bytes[self.pos];
            self.pos = self.pos + 1;
            n = n + 1;
            assert(bytes@ =~= rest0.subrange(0, n as int) + b0.subrange(n as int, len as int));
        }
        assert(n == read_count(len as int, rest0.len() as int));
        assert(self.rest() =~= rest0.subrange(n as int, rest0.len() as int));
        Ok(n)
    }
}

impl PortalConvert for u64 {
    open spec fn wire(&self) -> Seq<u8> {
        u64_wire(*self)
    }

    fn serialize<S: Sender>(&self, send: &mut S) -> (r: Result<usize, IpcError>)
        ensures
            r is Ok ==> r == Ok::<usize, IpcError>(9),
    {
        let mut out: Vec<u8> = Vec::new();
        encode_u64(*self, &mut out);
        proof {
            vstd::bytes::lemma_auto_spec_u64_to_from_le_bytes();
            assert(out@ =~= u64_wire(*self));
        }
        match send.send(out.as_slice()) {
            Ok(()) => Ok(9),
            Err(e) => Err(e),
        }
    }

    fn deserialize<R: Receiver>(recv: &mut R) -> (r: Result<Self, IpcError>) {
        let mut buf: Vec<u8> = Vec::new();
        let mut i: usize = 0;
        while i < 9
            invariant
                i <= 9,
                buf@.len() == i,
            decreases 9 - i,
        {
            buf.push(0);
            i = i + 1;
        }
        match recv.recv_exact(buf.as_mut_slice()) {
            Ok(()) => {
                let r = decode_u64(buf.as_slice());
                proof {
                    vstd::bytes::lemma_auto_spec_u64_to_from_le_bytes();
                    if r is Ok {
                        let v = r->Ok_0;
                        let body = buf@.subrange(1, 9);
                        assert(spec_u64_to_le_bytes(spec_u64_from_le_bytes(body)) == body);
                        assert(u64_wire(v) =~= buf@);
                        assert(u64_wire(v).len() == 9);
                    }
                }
                r
            },
            Err(e) => Err(e),
        }
    }
}

impl IpcMessage {
    /// Try and parse this message into a valid convertable type: a value parsed is one
    /// whose bytes open the message's data.
    pub fn try_parse<T: PortalConvert>(&self) -> (r: IpcResult<T>)
        ensures
            r is Ok ==> r->Ok_0.wire().len() <= self.data@.len() && self.data@.subrange(
                0,
                r->Ok_0.wire().len() as int,
            ) == r->Ok_0.wire(),
    {
        let mut reader = ByteReader::new(self.data.as_slice());
        T::deserialize(&mut reader)
    }
}

/// Info for a given endpoint service required for connection
///
/// This trait serves to provide a constant way of storing the
/// endpoint's info for the inner `IpcService` struct.
pub trait IpcServiceInfo {
    const ENDPOINT_NAME: &'static str;

    const ENDPOINT_HASH: u64;
}

/// The two ends of an IPC connection.
pub trait IpcGlue: Sender + Receiver {
    /// Disconnect Portal's connection from server and client
    fn disconnect(&mut self);

    /// If the ipc backend is blocking during a waiting call, it will
    /// call this method to block until the socket has woken up.
    fn socket_wait(&self) {
    }
}

/// The start byte of a message sent by a server (`is_server`) or a client, as a
/// response or as a request.
pub open spec fn start_byte_for(is_server: bool, is_response: bool) -> u8 {
    if is_server && is_response {
        MESSAGE_SERVER_RSP_START
    } else if is_server {
        MESSAGE_SERVER_REQ_START
    } else if is_response {
        MESSAGE_CLIENT_RSP_START
    } else {
        MESSAGE_CLIENT_REQ_START
    }
}

/// The start byte of the responses a service waits for: a server waits for the
/// responses of clients, a client for those of servers.
pub open spec fn awaited_start_byte(is_server: bool) -> u8 {
    if is_server {
        MESSAGE_CLIENT_RSP_START
    } else {
        MESSAGE_SERVER_RSP_START
    }
}

/// The start byte of a message tells its sender's side and whether it answers: a response
/// a service sends is exactly what the other end waits for, never what the sender itself
/// waits for, and differs from the same service's requests; the two sides never share a
/// start byte; every start byte is one a reader recognises.
pub proof fn lemma_start_bytes_tell_apart(is_server: bool, is_response: bool)
    ensures
        start_byte_for(is_server, true) == awaited_start_byte(!is_server),
        start_byte_for(is_server, true) != awaited_start_byte(is_server),
        start_byte_for(is_server, true) != start_byte_for(is_server, false),
        start_byte_for(true, is_response) != start_byte_for(false, is_response),
        is_start_byte(start_byte_for(is_server, is_response)),
{
}

/// The front of the stream is not a whole message yet: reading it says `NotReady`.
pub open spec fn awaiting_more(s: Seq<u8>) -> bool {
    parse_message(s) == Err::<(u8, u64, u64, Seq<u8>, u8), IpcError>(IpcError::NotReady)
}

/// A message as its fields: start byte, hash, target, data and end byte.
pub open spec fn message_fields(m: IpcMessage) -> (u8, u64, u64, Seq<u8>, u8) {
    (m.start_byte, m.endpoint_hash, m.target_id, m.data@, m.end_byte)
}

/// Parsing a stream for the endpoint `hash`: the messages taken off its front, in order,
/// what is left of it, and how the parse ended. It ends well where the front is not a
/// whole message yet; a message for another
/// endpoint is taken off and ends it with `InvalidHash`; a damaged message ends it with
/// its error, the stream cut at its resync point.
pub open spec fn parse_stream(s: Seq<u8>, hash: u64) -> (
    Seq<(u8, u64, u64, Seq<u8>, u8)>,
    Seq<u8>,
    IpcResult<()>,
)
    decreases s.len(),
{
    match parse_message(s) {
        Ok(m) => {
            proof {
                lemma_parsed_len(s);
            }
            let rest = s.subrange((m.3.len() + 29) as int, s.len() as int);
            if m.1 != hash {
                (seq![], rest, Err(IpcError::InvalidHash { given: m.1, expected: hash }))
            } else {
                let (ms, left, res) = parse_stream(rest, hash);
                (seq![m] + ms, left, res)
            }
        },
        Err(e) => if e == IpcError::NotReady {
            (seq![], s, Ok(()))
        } else {
            (seq![], s.subrange(resync_point(s), s.len() as int), Err(e))
        },
    }
}

/// The fields of the messages of `q` from position `n` on.
pub open spec fn new_fields(q: Seq<IpcMessage>, n: int) -> Seq<(u8, u64, u64, Seq<u8>, u8)> {
    Seq::new((q.len() - n) as nat, |j: int| message_fields(q[n + j]))
}

/// The size at which the bytes gathered for sending are sent before more are added.
pub const FLUSH_THRESHOLD: usize = 8191;

/// The bytes of a message on the wire.
pub open spec fn message_bytes(m: IpcMessage) -> Seq<u8> {
    message_wire(m.start_byte, m.endpoint_hash, m.target_id, m.data@, m.end_byte)
}

/// A message whose wire length does not fit in a `usize`.
pub open spec fn message_too_long(m: IpcMessage) -> bool {
    m.data@.len() + 29 > usize::MAX
}

/// The byte strings to send for the messages of `msgs` from position `i` on, with `cell`
/// gathered so far, and whether every message could be written. Before each message the
/// gathered bytes are sent if they reached `FLUSH_THRESHOLD`; the message's bytes are then
/// added; what is gathered at the end is sent too. A message too long stops it there,
/// and what is gathered then is not sent.
pub open spec fn flush_chunks(msgs: Seq<IpcMessage>, i: int, cell: Seq<u8>) -> (
    Seq<Seq<u8>>,
    bool,
)
    decreases msgs.len() - i,
{
    if i < 0 || i >= msgs.len() {
        (seq![cell], true)
    } else {
        let full = cell.len() >= FLUSH_THRESHOLD;
        let emitted: Seq<Seq<u8>> = if full { seq![cell] } else { seq![] };
        let kept: Seq<u8> = if full { seq![] } else { cell };
        if message_too_long(msgs[i]) {
            (emitted, false)
        } else {
            let (rest, complete) = flush_chunks(msgs, i + 1, kept + message_bytes(msgs[i]));
            (emitted + rest, complete)
        }
    }
}

/// The wire bytes of the messages of `msgs` from position `i` on, one after the other.
pub open spec fn wire_from(msgs: Seq<IpcMessage>, i: int) -> Seq<u8>
    decreases msgs.len() - i,
{
    if i < 0 || i >= msgs.len() {
        seq![]
    } else {
        message_bytes(msgs[i]) + wire_from(msgs, i + 1)
    }
}

proof fn lemma_flush_chunks_join(msgs: Seq<IpcMessage>, i: int, cell: Seq<u8>)
    requires
        0 <= i,
    ensures
        (forall|k: int| i <= k < msgs.len() ==> !message_too_long(#[trigger] msgs[k]))
            ==> flush_chunks(msgs, i, cell).1,
        flush_chunks(msgs, i, cell).1 ==> flush_chunks(msgs, i, cell).0.flatten() == cell
            + wire_from(msgs, i),
    decreases msgs.len() - i,
{
    if i >= msgs.len() {
        let c = seq![cell];
        assert(c.drop_first() =~= Seq::<Seq<u8>>::empty());
        assert(cell + wire_from(msgs, i) =~= cell);
        assert(c.flatten() =~= cell + c.drop_first().flatten());
    } else if message_too_long(msgs[i]) {
    } else {
        let m = message_bytes(msgs[i]);
        if cell.len() >= FLUSH_THRESHOLD {
            let kept: Seq<u8> = seq![];
            lemma_flush_chunks_join(msgs, i + 1, kept + m);
            let rest = flush_chunks(msgs, i + 1, kept + m).0;
            let all = seq![cell] + rest;
            assert(all.first() == cell);
            assert(all.drop_first() =~= rest);
            assert(kept + m =~= m);
            assert(cell + (m + wire_from(msgs, i + 1)) =~= cell + wire_from(msgs, i));
            assert(all.flatten() == cell + rest.flatten());
        } else {
            lemma_flush_chunks_join(msgs, i + 1, cell + m);
            let rest = flush_chunks(msgs, i + 1, cell + m).0;
            let none: Seq<Seq<u8>> = seq![];
            assert(none + rest =~= rest);
            assert((cell + m) + wire_from(msgs, i + 1) =~= cell + wire_from(msgs, i));
        }
    }
}

proof fn lemma_flatten_take_next(s: Seq<Seq<u8>>, j: int)
    requires
        0 <= j < s.len(),
    ensures
        s.take(j + 1).flatten() == s.take(j).flatten() + s[j],
{
    assert(s.take(j + 1) =~= s.take(j) + seq![s[j]]);
    vstd::seq_lib::lemma_flatten_concat(s.take(j), seq![s[j]]);
    seq![s[j]].lemma_flatten_one_element();
}

/// Flushing messages that all fit sends exactly their bytes: the strings handed out, joined
/// in order, are the wire bytes of the messages one after the other.
pub proof fn lemma_flush_sends_all(msgs: Seq<IpcMessage>)
    requires
        forall|k: int| 0 <= k < msgs.len() ==> !message_too_long(#[trigger] msgs[k]),
    ensures
        flush_chunks(msgs, 0, seq![]).1,
        flush_chunks(msgs, 0, seq![]).0.flatten() == wire_from(msgs, 0),
{
    lemma_flush_chunks_join(msgs, 0, seq![]);
    assert(Seq::<u8>::empty() + wire_from(msgs, 0) =~= wire_from(msgs, 0));
}

/// The byte strings to send for `msgs`, in order, and whether every message could be
/// written (see `flush_chunks`).
pub fn flush_chunks_of(msgs: &Vec<IpcMessage>) -> (r: (Vec<Vec<u8>>, bool))
    ensures
        r.0@.map_values(|v: Vec<u8>| v@) == flush_chunks(msgs@, 0, seq![]).0,
        r.1 == flush_chunks(msgs@, 0, seq![]).1,
{
    let mut out: Vec<Vec<u8>> = Vec::new();
    let mut cell: Vec<u8> = Vec::new();
    let mut i: usize = 0;
    assert(cell@ =~= Seq::<u8>::empty());
    while i < msgs.len()
        invariant
            i <= msgs@.len(),
            flush_chunks(msgs@, 0, seq![]).0 == out@.map_values(|v: Vec<u8>| v@) + flush_chunks(
                msgs@,
                i as int,
                cell@,
            ).0,
            flush_chunks(msgs@, 0, seq![]).1 == flush_chunks(msgs@, i as int, cell@).1,
        decreases msgs@.len() - i,
    {
        let ghost out0 = out@.map_values(|v: Vec<u8>| v@);
        let ghost cell0 = cell@;
        if cell.len() >= FLUSH_THRESHOLD {
            out.push(cell);
            cell = Vec::new();
            assert(out@.map_values(|v: Vec<u8>| v@) =~= out0 + seq![cell0]);
        }
        let ghost out1 = out@.map_values(|v: Vec<u8>| v@);
        if msgs[i].data.len() > usize::MAX - 29 {
            proof {
                let emitted: Seq<Seq<u8>> = if cell0.len() >= FLUSH_THRESHOLD { seq![cell0] } else { seq![] };
                assert(out1 =~= out0 + emitted);
                assert(flush_chunks(msgs@, i as int, cell0).0 == emitted);
                assert(out1 + Seq::<Seq<u8>>::empty() =~= out1);
            }
            return (out, false);
        }
        let ghost kept = cell@;
        let _ = msgs[i].serialize_into(&mut cell);
        proof {
            let emitted: Seq<Seq<u8>> = if cell0.len() >= FLUSH_THRESHOLD { seq![cell0] } else { seq![] };
            assert(out1 =~= out0 + emitted);
            assert(cell@ == kept + message_bytes(msgs@[i as int]));
            let rest = flush_chunks(msgs@, i + 1, cell@).0;
            assert(flush_chunks(msgs@, i as int, cell0).0 == emitted + rest);
            assert(out0 + (emitted + rest) =~= out1 + rest);
        }
        i = i + 1;
    }
    let ghost out0 = out@.map_values(|v: Vec<u8>| v@);
    let ghost cell0 = cell@;
    out.push(cell);
    assert(out@.map_values(|v: Vec<u8>| v@) =~= out0 + seq![cell0]);
    (out, true)
}

/// One end of a typed IPC connection: the queues of messages received and to be sent.
pub struct IpcService<Glue: IpcGlue, Info: IpcServiceInfo> {
    glue: Glue,
    info: core::marker::PhantomData<Info>,
    is_server: bool,
    rx_queue: std::collections::VecDeque<IpcMessage>,
    tx_queue: std::collections::VecDeque<IpcMessage>,
    rx_buf: RawIpcBuffer,
}

impl<Glue: IpcGlue, Info: IpcServiceInfo> IpcService<Glue, Info> {
    /// Messages received and parsed, oldest first.
    pub closed spec fn received(&self) -> Seq<IpcMessage> {
        self.rx_queue@
    }

    /// Messages waiting to be sent, oldest first.
    pub closed spec fn outgoing(&self) -> Seq<IpcMessage> {
        self.tx_queue@
    }

    /// Bytes received but not parsed yet.
    pub closed spec fn pending(&self) -> Seq<u8> {
        self.rx_buf@
    }

    /// Whether this end is the server.
    pub closed spec fn server(&self) -> bool {
        self.is_server
    }

    /// The bytes the connection has taken to send so far.
    pub closed spec fn sent(&self) -> Seq<u8> {
        self.glue.sent()
    }

    /// The bytes the connection has still to hand in.
    pub closed spec fn incoming(&self) -> Seq<u8> {
        self.glue.incoming()
    }

    pub fn new(glue: Glue, is_server: bool) -> (r: Self)
        ensures
            r.received().len() == 0,
            r.outgoing().len() == 0,
            r.pending() == Seq::<u8>::empty(),
            r.server() == is_server,
    {
        Self {
            glue,
            info: core::marker::PhantomData,
            rx_queue: std::collections::VecDeque::new(),
            tx_queue: std::collections::VecDeque::new(),
            rx_buf: RawIpcBuffer::new(),
            is_server,
        }
    }

    /// Read one chunk of at most 256 bytes from the connection into the stream of
    /// received bytes. `Ok(true)`: bytes were read and more may follow; `Ok(false)`: the
    /// connection has nothing more now (it read nothing, or said `NotReady` or
    /// `BufferInvalidSize`). Other errors are handed back, and so is a chunk that claims
    /// more bytes than it had room for (as `BufferInvalidSize`).
    pub fn receive_chunk(&mut self) -> (r: IpcResult<bool>)
        ensures
            final(self).received() == old(self).received(),
            final(self).outgoing() == old(self).outgoing(),
            final(self).server() == old(self).server(),
            r == Ok::<bool, IpcError>(false) || r is Err ==> final(self).pending() == old(self).pending(),
            r == Ok::<bool, IpcError>(true) ==> exists|chunk: Seq<u8>|
                0 < chunk.len() <= 256 && final(self).pending() == old(self).pending() + chunk,
            r != Err::<bool, IpcError>(IpcError::NotReady),
            exists|read: IpcResult<usize>, chunk: Seq<u8>|
                {
                    &&& chunk.len() == 256
                    &&& (r, final(self).pending()) == #[trigger] chunk_step(
                        old(self).pending(),
                        read,
                        chunk,
                    )
                    &&& read matches Ok(n) ==> n <= 256 && chunk.subrange(0, n as int)
                        == old(self).incoming().subrange(0, n as int) && final(self).incoming()
                        == old(self).incoming().subrange(n as int, old(self).incoming().len() as int)
                },
    {
        let mut data_chunk: Vec<u8> = Vec::new();
        let mut i: usize = 0;
        while i < 256
            invariant
                i <= 256,
                data_chunk@.len() == i,
            decreases 256 - i,
        {
            data_chunk.push(0);
            i = i + 1;
        }
        let read = self.glue.recv(data_chunk.as_mut_slice());
        let r = self.rx_buf.take_chunk(read, data_chunk.as_slice());
        proof {
            if r == Ok::<bool, IpcError>(true) {
                let n = read->Ok_0;
                assert(0 < data_chunk@.subrange(0, n as int).len() <= 256);
            }
            assert(chunk_step(old(self).pending(), read, data_chunk@) == (r, self.pending()));
        }
        r
    }

    /// Parse the received bytes into messages, queueing each one. A message for another
    /// endpoint stops the parse with `InvalidHash`; a damaged message stops it with its error.
    pub fn parse_rx(&mut self) -> (r: IpcResult<()>)
        ensures
            final(self).outgoing() == old(self).outgoing(),
            final(self).server() == old(self).server(),
            final(self).received().len() >= old(self).received().len(),
            final(self).received().subrange(0, old(self).received().len() as int) == old(self).received(),
            forall|j: int|
                old(self).received().len() <= j < final(self).received().len() ==> (#[trigger] final(self).received()[j]).endpoint_hash == Info::ENDPOINT_HASH,
            r is Ok ==> awaiting_more(final(self).pending()),
            ({
                let (ms, left, res) = parse_stream(old(self).pending(), Info::ENDPOINT_HASH);
                &&& r == res
                &&& final(self).pending() == left
                &&& final(self).received().len() == old(self).received().len() + ms.len()
                &&& forall|j: int|
                    0 <= j < ms.len() ==> message_fields(
                        #[trigger] final(self).received()[old(self).received().len() + j],
                    ) == ms[j]
            }),
    {
        let ghost s0 = self.rx_buf@;
        let ghost n0 = self.rx_queue@.len();
        loop
            invariant
                self.outgoing() == old(self).outgoing(),
                self.server() == old(self).server(),
                self.received().len() >= old(self).received().len(),
                self.received().subrange(0, old(self).received().len() as int) == old(self).received(),
                forall|j: int|
                    old(self).received().len() <= j < self.received().len() ==> (#[trigger] self.received()[j]).endpoint_hash
                        == Info::ENDPOINT_HASH,
                s0 == old(self).pending(),
                n0 == old(self).received().len(),
                parse_stream(s0, Info::ENDPOINT_HASH).1 == parse_stream(self.pending(), Info::ENDPOINT_HASH).1,
                parse_stream(s0, Info::ENDPOINT_HASH).2 == parse_stream(self.pending(), Info::ENDPOINT_HASH).2,
                parse_stream(s0, Info::ENDPOINT_HASH).0 == new_fields(self.received(), n0 as int)
                    + parse_stream(self.pending(), Info::ENDPOINT_HASH).0,
            decreases self.rx_buf@.len(),
        {
            let ghost before = self.rx_buf@;
            let ghost q = self.rx_queue@;
            match self.rx_buf.pop_message() {
                Ok(valid) => {
                    if valid.endpoint_hash != Info::ENDPOINT_HASH {
                        proof {
                            assert(parse_stream(s0, Info::ENDPOINT_HASH).0 =~= new_fields(self.received(), n0 as int));
                        }
                        return Err(
                            IpcError::InvalidHash {
                                given: valid.endpoint_hash,
                                expected: Info::ENDPOINT_HASH,
                            },
                        );
                    }
                    proof {
                        let m = parse_message(before)->Ok_0;
                        assert(message_fields(valid) == m);
                    }
                    self.rx_queue.push_back(valid);
                    proof {
                        assert(self.received().subrange(0, old(self).received().len() as int) =~= q.subrange(0, old(self).received().len() as int));
                        assert(new_fields(self.received(), n0 as int) =~= new_fields(q, n0 as int).push(message_fields(valid)));
                        let m = parse_message(before)->Ok_0;
                        assert(parse_stream(before, Info::ENDPOINT_HASH).0 == seq![m] + parse_stream(self.pending(), Info::ENDPOINT_HASH).0);
                        assert(parse_stream(s0, Info::ENDPOINT_HASH).0 =~= new_fields(self.received(), n0 as int)
                            + parse_stream(self.pending(), Info::ENDPOINT_HASH).0);
                    }
                },
                Err(IpcError::NotReady) => {
                    proof {
                        assert(parse_stream(s0, Info::ENDPOINT_HASH).0 =~= new_fields(self.received(), n0 as int));
                    }
                    return Ok(());
                },
                Err(invalid) => {
                    proof {
                        assert(parse_stream(s0, Info::ENDPOINT_HASH).0 =~= new_fields(self.received(), n0 as int));
                    }
                    return Err(invalid);
                },
            }
        }
    }

    /// Add a message of `data` for `target_id` to the transmit queue; its start byte tells
    /// server from client and request from response.
    pub fn queue_tx(&mut self, target_id: u64, is_response: bool, data: Vec<u8>)
        ensures
            final(self).received() == old(self).received(),
            final(self).server() == old(self).server(),
            final(self).outgoing().len() == old(self).outgoing().len() + 1,
            final(self).outgoing().drop_last() == old(self).outgoing(),
            message_fields(final(self).outgoing().last()) == (
                start_byte_for(old(self).server(), is_response),
                Info::ENDPOINT_HASH,
                target_id,
                data@,
                MESSAGE_END,
            ),
    {
        let start_byte = if self.is_server && is_response {
            MESSAGE_SERVER_RSP_START
        } else if self.is_server {
            MESSAGE_SERVER_REQ_START
        } else if is_response {
            MESSAGE_CLIENT_RSP_START
        } else {
            MESSAGE_CLIENT_REQ_START
        };
        let ghost q = self.tx_queue@;
        self.tx_queue.push_back(
            IpcMessage {
                start_byte,
                endpoint_hash: Info::ENDPOINT_HASH,
                target_id,
                data,
                end_byte: MESSAGE_END,
            },
        );
        assert(self.outgoing().drop_last() =~= q);
    }

    /// Construct a new IpcMessage and add it to the transmit queue: the data is what
    /// `data.serialize` writes into an empty vector, queued by `queue_tx`.
    pub fn tx_msg<T: PortalConvert>(&mut self, target_id: u64, is_response: bool, data: T) -> (r:
        IpcResult<()>)
        ensures
            final(self).received() == old(self).received(),
            final(self).server() == old(self).server(),
            r is Err ==> final(self).outgoing() == old(self).outgoing(),
            r is Ok ==> {
                &&& final(self).outgoing().len() == old(self).outgoing().len() + 1
                &&& final(self).outgoing().drop_last() == old(self).outgoing()
                &&& final(self).outgoing().last().start_byte == start_byte_for(
                    old(self).server(),
                    is_response,
                )
                &&& final(self).outgoing().last().endpoint_hash == Info::ENDPOINT_HASH
                &&& final(self).outgoing().last().target_id == target_id
                &&& final(self).outgoing().last().end_byte == MESSAGE_END
                &&& final(self).outgoing().last().data@ == data.wire()
            },
    {
        let mut data_vec: Vec<u8> = Vec::with_capacity(256);
        match data.serialize(&mut data_vec) {
            Ok(_) => {},
            Err(e) => {
                return Err(e);
            },
        }
        self.queue_tx(target_id, is_response, data_vec);
        Ok(())
    }

    /// Serialize all messages into one large vector, then call `send` from `glue`; the
    /// vector is sent early whenever it reaches 8 KiB - 1 bytes. The queue is emptied
    /// whatever happens; the byte strings sent, in order, are those `flush_chunks_of`
    /// makes of the queued messages, and the first error of `send` stops the flush.
    pub fn flush_tx(&mut self) -> (r: IpcResult<()>)
        ensures
            final(self).received() == old(self).received(),
            final(self).server() == old(self).server(),
            final(self).outgoing().len() == 0,
            r is Ok ==> flush_chunks(old(self).outgoing(), 0, seq![]).1,
            !flush_chunks(old(self).outgoing(), 0, seq![]).1 ==> r is Err,
            r is Ok ==> final(self).sent() == old(self).sent() + wire_from(old(self).outgoing(), 0),
    {
        let mut msgs: Vec<IpcMessage> = Vec::new();
        while self.tx_queue.len() > 0
            invariant
                self.received() == old(self).received(),
                self.server() == old(self).server(),
                msgs@ + self.outgoing() == old(self).outgoing(),
                self.sent() == old(self).sent(),
            decreases self.tx_queue@.len(),
        {
            let m = self.tx_queue.pop_front().unwrap();
            msgs.push(m);
            assert(msgs@ + self.outgoing() =~= old(self).outgoing());
        }
        assert(msgs@ =~= old(self).outgoing());
        let (chunks, complete) = flush_chunks_of(&msgs);
        let ghost cs = chunks@.map_values(|v: Vec<u8>| v@);
        let mut j: usize = 0;
        assert(cs.take(0) =~= Seq::<Seq<u8>>::empty());
        assert(old(self).sent() + cs.take(0).flatten() =~= old(self).sent());
        while j < chunks.len()
            invariant
                self.received() == old(self).received(),
                self.server() == old(self).server(),
                self.outgoing().len() == 0,
                j <= chunks@.len(),
                cs == chunks@.map_values(|v: Vec<u8>| v@),
                self.sent() == old(self).sent() + cs.take(j as int).flatten(),
            decreases chunks@.len() - j,
        {
            match self.glue.send(chunks[j].as_slice()) {
                Ok(()) => {},
                Err(e) => {
                    return Err(e);
                },
            }
            proof {
                lemma_flatten_take_next(cs, j as int);
            }
            j = j + 1;
        }
        proof {
            assert(cs.take(cs.len() as int) =~= cs);
            lemma_flush_chunks_join(msgs@, 0, seq![]);
            if complete {
                assert(Seq::<u8>::empty() + wire_from(msgs@, 0) =~= wire_from(msgs@, 0));
            }
        }
        if !complete {
            return Err(IpcError::BufferInvalidSize);
        }
        Ok(())
    }

    /// The oldest message received.
    pub fn pop_rx(&mut self) -> (r: Option<IpcMessage>)
        ensures
            final(self).outgoing() == old(self).outgoing(),
            final(self).server() == old(self).server(),
            old(self).received().len() == 0 ==> r is None && final(self).received() == old(self).received(),
            old(self).received().len() > 0 ==> r == Some(old(self).received()[0])
                && final(self).received() == old(self).received().drop_first(),
    {
        self.rx_queue.pop_front()
    }

    /// Remove and hand out the oldest received message for which `f` holds.
    pub fn pop_rx_if<F: Fn(&IpcMessage) -> bool>(&mut self, f: F) -> (r: Option<IpcMessage>)
        requires
            forall|m: &IpcMessage| f.requires((m,)),
        ensures
            final(self).outgoing() == old(self).outgoing(),
            final(self).server() == old(self).server(),
            r is None ==> final(self).received() == old(self).received() && forall|i: int|
                0 <= i < old(self).received().len() ==> f.ensures(
                    (&old(self).received()[i],),
                    false,
                ),
            r is Some ==> exists|i: int|
                0 <= i < old(self).received().len() && r == Some(old(self).received()[i])
                    && final(self).received() == old(self).received().remove(i) && f.ensures(
                    (&old(self).received()[i],),
                    true,
                ) && forall|j: int| 0 <= j < i ==> f.ensures((&old(self).received()[j],), false),
    {
        let mut i: usize = 0;
        let n = self.rx_queue.len();
        while i < n
            invariant
                i <= n,
                n == self.rx_queue@.len(),
                *self == *old(self),
                forall|m: &IpcMessage| f.requires((m,)),
                forall|j: int| 0 <= j < i ==> f.ensures((&old(self).received()[j],), false),
            decreases n - i,
        {
            let hit = f(&self.rx_queue[i]);
            assert(f.ensures((&old(self).received()[i as int],), hit));
            if hit {
                let r = self.rx_queue.remove(i);
                assert(r == Some(old(self).received()[i as int]) && self.received() == old(self).received().remove(i as int));
                return r;
            }
            i = i + 1;
        }
        None
    }

    /// Remove and hand out the oldest received response to `target_id`: a message with
    /// that target whose start byte is that of a response from the other end.
    pub fn pop_response(&mut self, target_id: u64) -> (r: Option<IpcMessage>)
        ensures
            final(self).outgoing() == old(self).outgoing(),
            final(self).server() == old(self).server(),
            r is None ==> final(self).received() == old(self).received() && forall|i: int|
                0 <= i < old(self).received().len() ==> !((#[trigger] old(self).received()[i]).target_id
                    == target_id && old(self).received()[i].start_byte == awaited_start_byte(
                    old(self).server(),
                )),
            r is Some ==> exists|i: int|
                0 <= i < old(self).received().len() && r == Some(old(self).received()[i]) && r->0.target_id
                    == target_id && r->0.start_byte == awaited_start_byte(old(self).server())
                    && final(self).received() == old(self).received().remove(i) && forall|j: int|
                    0 <= j < i ==> !((#[trigger] old(self).received()[j]).target_id == target_id
                        && old(self).received()[j].start_byte == awaited_start_byte(
                        old(self).server(),
                    )),
    {
        let wanted = if self.is_server {
            MESSAGE_CLIENT_RSP_START
        } else {
            MESSAGE_SERVER_RSP_START
        };
        let mut i: usize = 0;
        let n = self.rx_queue.len();
        while i < n
            invariant
                i <= n,
                n == self.rx_queue@.len(),
                *self == *old(self),
                wanted == awaited_start_byte(self.is_server),
                forall|j: int|
                    0 <= j < i ==> !((#[trigger] self.rx_queue@[j]).target_id == target_id
                        && self.rx_queue@[j].start_byte == wanted),
            decreases n - i,
        {
            let m = &self.rx_queue[i];
            if m.target_id == target_id && m.start_byte == wanted {
                let r = self.rx_queue.remove(i);
                assert(r == Some(old(self).received()[i as int]) && self.received() == old(self).received().remove(i as int));
                return r;
            }
            i = i + 1;
        }
        None
    }

    /// Whether no received message is waiting.
    pub fn rx_is_empty(&self) -> (r: bool)
        ensures
            r == (self.received().len() == 0),
    {
        self.rx_queue.len() == 0
    }

    /// Block until the connection has news (see `IpcGlue::socket_wait`).
    pub fn wait(&self) {
        self.glue.socket_wait();
    }
}

/// A typed sender for responding to IPC Messages
pub struct IpcResponder<'a, Glue: IpcGlue, Info: IpcServiceInfo, T: PortalConvert, const TARGET_ID: u64> {
    connection: &'a mut IpcService<Glue, Info>,
    ty: core::marker::PhantomData<T>,
}

impl<'a, Glue: IpcGlue, Info: IpcServiceInfo, T: PortalConvert, const TARGET_ID: u64> IpcResponder<
    'a,
    Glue,
    Info,
    T,
    TARGET_ID,
> {
    /// The connection the responder answers on.
    pub closed spec fn connection(&self) -> &'a mut IpcService<Glue, Info> {
        self.connection
    }

    pub fn new(connection: &'a mut IpcService<Glue, Info>) -> (r: Self)
        ensures
            *r.connection() == *old(connection),
            *final(r.connection()) == *final(connection),
    {
        Self { connection, ty: core::marker::PhantomData }
    }

    /// Queue `value` as the response to `TARGET_ID`.
    pub fn respond_with(self, value: T) -> (r: IpcResult<()>)
        ensures
            final(self.connection()).received() == self.connection().received(),
            final(self.connection()).server() == self.connection().server(),
            r is Err ==> final(self.connection()).outgoing() == self.connection().outgoing(),
            r is Ok ==> {
                &&& final(self.connection()).outgoing().len() == self.connection().outgoing().len() + 1
                &&& final(self.connection()).outgoing().drop_last() == self.connection().outgoing()
                &&& final(self.connection()).outgoing().last().start_byte == start_byte_for(
                    self.connection().server(),
                    true,
                )
                &&& final(self.connection()).outgoing().last().endpoint_hash == Info::ENDPOINT_HASH
                &&& final(self.connection()).outgoing().last().target_id == TARGET_ID
                &&& final(self.connection()).outgoing().last().end_byte == MESSAGE_END
                &&& final(self.connection()).outgoing().last().data@ == value.wire()
            },
    {
        self.connection.tx_msg(TARGET_ID, true, value)
    }
}

/// Reading a message back from its own bytes gives the message: whatever follows it in
/// the stream, the start byte, hash, target, data and end byte come out as they went in.
pub proof fn lemma_parse_serialized(
    start: u8,
    hash: u64,
    target: u64,
    data: Seq<u8>,
    rest: Seq<u8>,
)
    requires
        is_start_byte(start),
        data.len() <= usize::MAX,
    ensures
        parse_message(message_wire(start, hash, target, data, MESSAGE_END) + rest) == Ok::<
            (u8, u64, u64, Seq<u8>, u8),
            IpcError,
        >((start, hash, target, data, MESSAGE_END)),
{
    vstd::bytes::lemma_auto_spec_u64_to_from_le_bytes();
    let s = message_wire(start, hash, target, data, MESSAGE_END) + rest;
    let n = data.len();
    assert(s.len() == 29 + n + rest.len());
    assert(s[0] == start);
    assert(s.subrange(1, 10) =~= u64_wire(hash));
    assert(s.subrange(10, 19) =~= u64_wire(target));
    assert(s.subrange(19, 28) =~= u64_wire(n as u64));
    assert(u64_wire(hash).subrange(1, 9) =~= spec_u64_to_le_bytes(hash));
    assert(u64_wire(target).subrange(1, 9) =~= spec_u64_to_le_bytes(target));
    assert(u64_wire(n as u64).subrange(1, 9) =~= spec_u64_to_le_bytes(n as u64));
    assert(((n as u64) as usize) == n);
    assert(s.subrange(28, 28 + n as int) =~= data);
    assert(s[28 + n as int] == MESSAGE_END);
}

/// A message read off a stream takes its whole wire length from it.
pub proof fn lemma_parsed_len(s: Seq<u8>)
    ensures
        parse_message(s) is Ok ==> s.len() >= parse_message(s)->Ok_0.3.len() + 29,
{
}

/// Messages for `hash` sent back to back are parsed one after the other: the stream that
/// starts with a message's wire bytes gives that message, then whatever the rest gives.
pub proof fn lemma_parse_stream_front(
    start: u8,
    hash: u64,
    target: u64,
    data: Seq<u8>,
    rest: Seq<u8>,
)
    requires
        is_start_byte(start),
        data.len() <= usize::MAX,
    ensures
        ({
            let s = message_wire(start, hash, target, data, MESSAGE_END) + rest;
            let (ms, left, res) = parse_stream(rest, hash);
            parse_stream(s, hash) == (seq![(start, hash, target, data, MESSAGE_END)] + ms, left, res)
        }),
{
    lemma_parse_serialized(start, hash, target, data, rest);
    vstd::bytes::lemma_auto_spec_u64_to_from_le_bytes();
    let w = message_wire(start, hash, target, data, MESSAGE_END);
    let s = w + rest;
    assert(w.len() == data.len() + 29);
    assert(s.subrange(data.len() + 29int, s.len() as int) =~= rest);
}

proof fn lemma_resync_bound(s: Seq<u8>)
    ensures
        0 <= resync_point(s) <= s.len(),
    decreases s.len(),
{
    if s.len() > 0 && !is_start_byte(s[0]) && s[0] != MESSAGE_END {
        lemma_resync_bound(s.subrange(1, s.len() as int));
    }
}

} // verus!
