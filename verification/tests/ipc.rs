use std::cell::RefCell;
use std::rc::Rc;

use aloe::ipc::{
    decode_u64, encode_u64, exact_read_result, flush_chunks_of, ByteReader, IpcError, IpcGlue, IpcMessage, IpcResult, IpcService,
    IpcServiceInfo, RawIpcBuffer, Receiver, Sender, MESSAGE_CLIENT_REQ_START, MESSAGE_END,
    MESSAGE_SERVER_RSP_START, U64_TAG,
};

#[test]
fn u64_round_trip() {
    let mut out = Vec::new();
    encode_u64(0x1122_3344_5566_7788, &mut out);
    assert_eq!(out.len(), 9);
    assert_eq!(out[0], U64_TAG);
    assert_eq!(out[1], 0x88);
    assert_eq!(decode_u64(&out), Ok(0x1122_3344_5566_7788));
}

#[test]
fn u64_needs_its_tag() {
    let bytes = [0u8; 9];
    assert_eq!(decode_u64(&bytes), Err(IpcError::InvalidTypeConvert));
}

fn message(target_id: u64, data: Vec<u8>) -> IpcMessage {
    IpcMessage {
        start_byte: MESSAGE_CLIENT_REQ_START,
        endpoint_hash: 0xdead_beef,
        target_id,
        data,
        end_byte: MESSAGE_END,
    }
}

#[test]
fn message_round_trip_through_buffer() {
    let mut wire = Vec::new();
    let written = message(3, vec![1, 2, 3]).serialize_into(&mut wire);
    assert_eq!(written, 3 + 29);
    assert_eq!(wire.len(), 32);

    let mut buffer = RawIpcBuffer::new();
    buffer.append(&wire[..10]);
    assert_eq!(buffer.pop_message().err(), Some(IpcError::NotReady));
    buffer.append(&wire[10..]);

    let first = buffer.pop_message().unwrap();
    assert_eq!(first.start_byte, MESSAGE_CLIENT_REQ_START);
    assert_eq!(first.endpoint_hash, 0xdead_beef);
    assert_eq!(first.target_id, 3);
    assert_eq!(first.data, vec![1, 2, 3]);
    assert_eq!(first.end_byte, MESSAGE_END);
    // The message is gone, and nothing else was there.
    assert_eq!(buffer.pop_message().err(), Some(IpcError::NotReady));
}

#[test]
fn messages_back_to_back_both_pop() {
    let mut wire = Vec::new();
    message(1, vec![7]).serialize_into(&mut wire);
    message(2, vec![8, 9]).serialize_into(&mut wire);
    let mut buffer = RawIpcBuffer::new();
    buffer.append(&wire);
    let first = buffer.pop_message().unwrap();
    assert_eq!(first.target_id, 1);
    assert_eq!(first.data, vec![7]);
    let second = buffer.pop_message().unwrap();
    assert_eq!(second.target_id, 2);
    assert_eq!(second.data, vec![8, 9]);
    assert_eq!(buffer.pop_message().err(), Some(IpcError::NotReady));
}

#[test]
fn damaged_message_is_cut_away() {
    let mut wire = vec![0x77, 0x01, 0x02];
    message(4, vec![]).serialize_into(&mut wire);
    let mut buffer = RawIpcBuffer::new();
    buffer.append(&wire);
    assert_eq!(buffer.pop_message().err(), Some(IpcError::InvalidTypeConvert));
    // The stream starts again at the next start byte.
    let next = buffer.pop_message().unwrap();
    assert_eq!(next.target_id, 4);
    assert!(next.data.is_empty());
}

#[test]
fn message_data_parses_as_u64() {
    let mut data = Vec::new();
    encode_u64(99, &mut data);
    let m = message(1, data);
    assert_eq!(m.try_parse::<u64>(), Ok(99));
    let empty = message(1, vec![]);
    assert!(empty.try_parse::<u64>().is_err());
}

#[derive(Clone)]
struct Loopback {
    inbox: Rc<RefCell<Vec<u8>>>,
    outbox: Rc<RefCell<Vec<u8>>>,
}

impl Sender for Loopback {
    fn sent(&self) -> vstd::seq::Seq<u8> {
        unreachable!("the bytes sent are a specification")
    }

    fn send(&mut self, bytes: &[u8]) -> IpcResult<()> {
        self.outbox.borrow_mut().extend_from_slice(bytes);
        Ok(())
    }
}

impl Receiver for Loopback {
    fn incoming(&self) -> vstd::seq::Seq<u8> {
        unreachable!("the incoming bytes are a specification")
    }

    fn recv(&mut self, bytes: &mut [u8]) -> IpcResult<usize> {
        let mut inbox = self.inbox.borrow_mut();
        let n = bytes.len().min(inbox.len());
        bytes[..n].copy_from_slice(&inbox[..n]);
        inbox.drain(..n);
        Ok(n)
    }
}

impl IpcGlue for Loopback {
    fn disconnect(&mut self) {}
}

struct Echo;

impl IpcServiceInfo for Echo {
    const ENDPOINT_NAME: &'static str = "echo";
    const ENDPOINT_HASH: u64 = 0xec40;
}

#[test]
fn server_response_reaches_client() {
    let a = Rc::new(RefCell::new(Vec::new()));
    let b = Rc::new(RefCell::new(Vec::new()));
    let server_glue = Loopback { inbox: a.clone(), outbox: b.clone() };
    let client_glue = Loopback { inbox: b.clone(), outbox: a.clone() };
    let mut server: IpcService<Loopback, Echo> = IpcService::new(server_glue, true);
    let mut client: IpcService<Loopback, Echo> = IpcService::new(client_glue, false);

    server.tx_msg(5, true, 1234u64).unwrap();
    server.tx_msg(6, true, 99u64).unwrap();
    server.flush_tx().unwrap();

    while client.receive_chunk().unwrap() {}
    client.parse_rx().unwrap();
    let reply = client.pop_response(5).unwrap();
    assert_eq!(reply.start_byte, MESSAGE_SERVER_RSP_START);
    assert_eq!(reply.try_parse::<u64>(), Ok(1234));
    assert!(client.pop_response(5).is_none());
    let second = client.pop_response(6).unwrap();
    assert_eq!(second.try_parse::<u64>(), Ok(99));
    assert!(client.rx_is_empty());
}

#[test]
fn exact_read_needs_the_full_count() {
    assert_eq!(exact_read_result(Ok(9), 9), Ok(()));
    assert_eq!(exact_read_result(Ok(4), 9), Err(IpcError::BufferInvalidSize));
    assert_eq!(exact_read_result(Err(IpcError::GlueError), 9), Err(IpcError::GlueError));
}

#[test]
fn byte_reader_hands_out_bytes_in_order() {
    let mut reader = ByteReader::new(&[1, 2, 3, 4, 5]);
    let mut first = [0u8; 3];
    assert_eq!(reader.recv(&mut first), Ok(3));
    assert_eq!(first, [1, 2, 3]);
    let mut second = [9u8; 4];
    assert_eq!(reader.recv(&mut second), Ok(2));
    assert_eq!(second, [4, 5, 9, 9]);
    let mut third = [7u8; 2];
    assert_eq!(reader.recv(&mut third), Ok(0));
    assert_eq!(third, [7, 7]);
}

#[test]
fn byte_reader_exact_read_of_a_short_stream_fails() {
    let mut reader = ByteReader::new(&[1, 2]);
    let mut buf = [0u8; 4];
    assert_eq!(reader.recv_exact(&mut buf), Err(IpcError::BufferInvalidSize));
}

#[test]
fn flush_chunks_of_messages() {
    let msgs = vec![message(1, vec![1, 2]), message(2, vec![])];
    let (chunks, complete) = flush_chunks_of(&msgs);
    assert!(complete);
    let mut expected = Vec::new();
    msgs[0].serialize_into(&mut expected);
    msgs[1].serialize_into(&mut expected);
    assert_eq!(chunks, vec![expected]);
    let (none, complete) = flush_chunks_of(&Vec::new());
    assert!(complete);
    assert_eq!(none, vec![Vec::<u8>::new()]);
}

#[test]
fn flush_chunks_split_at_the_threshold() {
    let big = message(1, vec![0u8; 8200]);
    let small = message(2, vec![5]);
    let (chunks, complete) = flush_chunks_of(&vec![big, small]);
    assert!(complete);
    assert_eq!(chunks.len(), 2);
    assert_eq!(chunks[0].len(), 8229);
    assert_eq!(chunks[1].len(), 30);
}

#[test]
fn queued_message_carries_its_data() {
    let a = Rc::new(RefCell::new(Vec::new()));
    let b = Rc::new(RefCell::new(Vec::new()));
    let glue = Loopback { inbox: a.clone(), outbox: b.clone() };
    let mut service: IpcService<Loopback, Echo> = IpcService::new(glue, false);
    service.queue_tx(7, false, vec![4, 5, 6]);
    service.flush_tx().unwrap();
    let mut expected = Vec::new();
    IpcMessage {
        start_byte: MESSAGE_CLIENT_REQ_START,
        endpoint_hash: 0xec40,
        target_id: 7,
        data: vec![4, 5, 6],
        end_byte: MESSAGE_END,
    }
    .serialize_into(&mut expected);
    assert_eq!(*b.borrow(), expected);
}

#[test]
fn first_matching_response_comes_first() {
    let a = Rc::new(RefCell::new(Vec::new()));
    let b = Rc::new(RefCell::new(Vec::new()));
    let server_glue = Loopback { inbox: a.clone(), outbox: b.clone() };
    let client_glue = Loopback { inbox: b.clone(), outbox: a.clone() };
    let mut server: IpcService<Loopback, Echo> = IpcService::new(server_glue, true);
    let mut client: IpcService<Loopback, Echo> = IpcService::new(client_glue, false);

    server.tx_msg(5, true, 1u64).unwrap();
    server.tx_msg(5, true, 2u64).unwrap();
    server.flush_tx().unwrap();
    while client.receive_chunk().unwrap() {}
    client.parse_rx().unwrap();
    assert_eq!(client.pop_response(5).unwrap().try_parse::<u64>(), Ok(1));
    assert_eq!(client.pop_response(5).unwrap().try_parse::<u64>(), Ok(2));
}

#[test]
fn taking_a_chunk() {
    let mut buffer = RawIpcBuffer::new();
    let chunk = [1u8, 2, 3, 4];
    assert_eq!(buffer.take_chunk(Ok(0), &chunk), Ok(false));
    assert_eq!(buffer.take_chunk(Err(IpcError::NotReady), &chunk), Ok(false));
    assert_eq!(buffer.take_chunk(Err(IpcError::BufferInvalidSize), &chunk), Ok(false));
    assert_eq!(buffer.take_chunk(Ok(5), &chunk), Err(IpcError::BufferInvalidSize));
    assert_eq!(buffer.take_chunk(Err(IpcError::GlueError), &chunk), Err(IpcError::GlueError));
    assert_eq!(buffer.take_chunk(Ok(2), &chunk), Ok(true));
    assert_eq!(buffer.take_chunk(Ok(1), &chunk[2..]), Ok(true));
    // the buffer now holds 1, 2, 3: not a message, so reading it fails on its start byte
    assert_eq!(buffer.pop_message().err(), Some(IpcError::InvalidTypeConvert));
}

#[test]
fn parsed_value_opens_the_data() {
    let mut data = Vec::new();
    encode_u64(7, &mut data);
    data.push(0xaa);
    let m = IpcMessage {
        start_byte: MESSAGE_CLIENT_REQ_START,
        endpoint_hash: 1,
        target_id: 1,
        data,
        end_byte: MESSAGE_END,
    };
    assert_eq!(m.try_parse::<u64>(), Ok(7));
}
