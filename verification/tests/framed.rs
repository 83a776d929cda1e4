use std::collections::VecDeque;

use server_fx::codec::{Decode, Encode};
use server_fx::framed::Framed;
use server_fx::pollable::Pollable;
use server_fx::result::PollResult;
use server_fx::sink::{SendOne, Sink, SinkResult};
use server_fx::stream::{poll_io, IoError, Read, Write};

/// Frames of up to 65535 bytes behind a length of two bytes.
struct LengthPrefixed;

impl Decode for LengthPrefixed {
    type Item = Vec<u8>;

    fn decode(&self, buffer: &mut Vec<u8>) -> Option<Vec<u8>> {
        if buffer.len() < 2 {
            return None;
        }
        let len = ((buffer[0] as usize) << 8) | buffer[1] as usize;
        if buffer.len() < 2 + len {
            return None;
        }
        let frame = buffer[2..2 + len].to_vec();
        buffer.drain(..2 + len);
        Some(frame)
    }
}

impl Encode for LengthPrefixed {
    type Item = Vec<u8>;

    fn encode(&self, item: Vec<u8>, buffer: &mut Vec<u8>) {
        buffer.push((item.len() >> 8) as u8);
        buffer.push((item.len() & 0xff) as u8);
        buffer.extend(item);
    }
}

/// What a read of the scripted stream does.
enum Step {
    Bytes(Vec<u8>),
    Block,
    End,
    Fail,
}

/// A stream whose reads follow a script and whose writes take at most
/// `accepts` bytes each.
struct Scripted {
    reads: VecDeque<Step>,
    accepts: usize,
    written: Vec<u8>,
}

impl Scripted {
    fn new(reads: Vec<Step>, accepts: usize) -> Scripted {
        Scripted {
            reads: reads.into(),
            accepts: accepts,
            written: vec![],
        }
    }
}

impl Read for Scripted {
    fn read(&mut self, _limit: usize) -> Result<Vec<u8>, IoError> {
        match self.reads.pop_front() {
            Some(Step::Bytes(bytes)) => Ok(bytes),
            Some(Step::Block) | None => Err(IoError::WouldBlock),
            Some(Step::End) => Ok(vec![]),
            Some(Step::Fail) => Err(IoError::Os(104)),
        }
    }
}

impl Write for Scripted {
    fn write(&mut self, data: &[u8]) -> Result<usize, IoError> {
        if self.accepts == usize::MAX - 1 {
            return Err(IoError::WouldBlock);
        }
        if self.accepts == usize::MAX - 2 {
            return Err(IoError::Other);
        }
        let n = data.len().min(self.accepts);
        self.written.extend_from_slice(&data[..n]);
        Ok(n)
    }
}

/// An in-memory duplex stream: what is written can be read back.
struct Duplex {
    held: VecDeque<u8>,
}

impl Read for Duplex {
    fn read(&mut self, limit: usize) -> Result<Vec<u8>, IoError> {
        if self.held.is_empty() {
            return Err(IoError::WouldBlock);
        }
        let n = limit.min(self.held.len());
        Ok(self.held.drain(..n).collect())
    }
}

impl Write for Duplex {
    fn write(&mut self, data: &[u8]) -> Result<usize, IoError> {
        self.held.extend(data.iter());
        Ok(data.len())
    }
}

fn frame(bytes: &[u8]) -> Vec<u8> {
    let mut wire = vec![];
    LengthPrefixed.encode(bytes.to_vec(), &mut wire);
    wire
}

#[test]
fn poll_io_turns_would_block_into_not_ready() {
    assert_eq!(Ok(PollResult::Ready(3)), poll_io::<usize>(Ok(3)));
    assert_eq!(Ok(PollResult::NotReady), poll_io::<usize>(Err(IoError::WouldBlock)));
    assert_eq!(Err(IoError::Os(5)), poll_io::<usize>(Err(IoError::Os(5))));
    assert_eq!(
        Err(IoError::UnexpectedEof),
        poll_io::<usize>(Err(IoError::UnexpectedEof))
    );
    assert_eq!(Err(IoError::Other), poll_io::<usize>(Err(IoError::Other)));
}

#[test]
fn new_framed_has_an_empty_buffer() {
    let framed = Framed::new(Scripted::new(vec![], 8), LengthPrefixed);
    assert!(framed.buffer.is_empty());
    assert!(framed.buffer.capacity() >= 1024);
    let stream = framed.into_stream();
    assert!(stream.written.is_empty());
}

#[test]
fn poll_gives_the_frame_that_was_read() {
    let mut framed = Framed::new(
        Scripted::new(vec![Step::Bytes(frame(b"hello"))], 8),
        LengthPrefixed,
    );
    assert_eq!(Ok(PollResult::Ready(b"hello".to_vec())), framed.poll());
    assert!(framed.buffer.is_empty());
}

#[test]
fn poll_reads_until_the_frame_is_whole() {
    let wire = frame(b"hello");
    let mut framed = Framed::new(
        Scripted::new(
            vec![
                Step::Bytes(wire[..3].to_vec()),
                Step::Bytes(wire[3..].to_vec()),
            ],
            8,
        ),
        LengthPrefixed,
    );
    assert_eq!(Ok(PollResult::Ready(b"hello".to_vec())), framed.poll());
}

#[test]
fn poll_keeps_a_partial_frame_when_the_stream_blocks() {
    let wire = frame(b"hello");
    let mut framed = Framed::new(
        Scripted::new(
            vec![
                Step::Bytes(wire[..3].to_vec()),
                Step::Block,
                Step::Bytes(wire[3..].to_vec()),
            ],
            8,
        ),
        LengthPrefixed,
    );
    assert_eq!(Ok(PollResult::NotReady), framed.poll());
    assert_eq!(&wire[..3], &framed.buffer[..]);
    assert_eq!(Ok(PollResult::Ready(b"hello".to_vec())), framed.poll());
}

#[test]
fn poll_leaves_what_follows_the_frame_in_the_buffer() {
    let mut wire = frame(b"one");
    wire.extend(frame(b"two"));
    let mut framed = Framed::new(Scripted::new(vec![Step::Bytes(wire)], 8), LengthPrefixed);
    assert_eq!(Ok(PollResult::Ready(b"one".to_vec())), framed.poll());
    assert_eq!(frame(b"two"), framed.buffer);
    // The decoder is asked only after a read: the second frame waits.
    assert_eq!(Ok(PollResult::NotReady), framed.poll());
}

#[test]
fn poll_takes_a_read_of_no_bytes_for_the_end() {
    let mut framed = Framed::new(Scripted::new(vec![Step::End], 8), LengthPrefixed);
    assert_eq!(Err(IoError::UnexpectedEof), framed.poll());
}

#[test]
fn poll_gives_the_error_of_the_stream() {
    let mut framed = Framed::new(Scripted::new(vec![Step::Fail], 8), LengthPrefixed);
    assert_eq!(Err(IoError::Os(104)), framed.poll());
}

#[test]
fn start_send_encodes_into_an_empty_buffer() {
    let mut framed = Framed::new(Scripted::new(vec![], 8), LengthPrefixed);
    assert_eq!(Ok(SinkResult::Ready), framed.start_send(b"hi".to_vec()));
    assert_eq!(vec![0, 2, b'h', b'i'], framed.buffer);
}

#[test]
fn start_send_hands_the_item_back_while_the_buffer_holds_bytes() {
    let mut framed = Framed::new(Scripted::new(vec![], 8), LengthPrefixed);
    assert_eq!(Ok(SinkResult::Ready), framed.start_send(b"first".to_vec()));
    let before = framed.buffer.clone();
    assert_eq!(
        Ok(SinkResult::NotReady(b"second".to_vec())),
        framed.start_send(b"second".to_vec())
    );
    assert_eq!(before, framed.buffer);
}

#[test]
fn poll_complete_drains_what_was_written() {
    let mut framed = Framed::new(Scripted::new(vec![], 3), LengthPrefixed);
    assert_eq!(Ok(SinkResult::Ready), framed.start_send(b"abcd".to_vec()));
    assert_eq!(Ok(PollResult::NotReady), framed.poll_complete());
    assert_eq!(vec![b'b', b'c', b'd'], framed.buffer);
    assert_eq!(Ok(PollResult::Ready(())), framed.poll_complete());
    assert!(framed.buffer.is_empty());
    assert_eq!(frame(b"abcd"), framed.into_stream().written);
}

#[test]
fn poll_complete_of_an_empty_buffer_is_ready() {
    let mut framed = Framed::new(Scripted::new(vec![], 3), LengthPrefixed);
    assert_eq!(Ok(PollResult::Ready(())), framed.poll_complete());
}

#[test]
fn poll_complete_takes_a_write_of_no_bytes_for_completion() {
    let mut framed = Framed::new(Scripted::new(vec![], 0), LengthPrefixed);
    assert_eq!(Ok(SinkResult::Ready), framed.start_send(b"abcd".to_vec()));
    assert_eq!(Ok(PollResult::Ready(())), framed.poll_complete());
    assert_eq!(frame(b"abcd"), framed.buffer);
}

#[test]
fn poll_complete_is_not_ready_when_the_write_would_block() {
    let mut framed = Framed::new(Scripted::new(vec![], usize::MAX - 1), LengthPrefixed);
    assert_eq!(Ok(SinkResult::Ready), framed.start_send(b"abcd".to_vec()));
    assert_eq!(Ok(PollResult::NotReady), framed.poll_complete());
    assert_eq!(frame(b"abcd"), framed.buffer);
}

#[test]
fn poll_complete_gives_the_error_of_the_stream() {
    let mut framed = Framed::new(Scripted::new(vec![], usize::MAX - 2), LengthPrefixed);
    assert_eq!(Ok(SinkResult::Ready), framed.start_send(b"abcd".to_vec()));
    assert_eq!(Err(IoError::Other), framed.poll_complete());
}

#[test]
fn frames_come_back_as_they_went_in() {
    let frames: Vec<Vec<u8>> = vec![
        b"one".to_vec(),
        vec![],
        vec![7; 1000],
        b"the last one".to_vec(),
    ];
    let mut framed = Framed::new(
        Duplex {
            held: VecDeque::new(),
        },
        LengthPrefixed,
    );
    let mut back = vec![];
    for frame in frames.iter() {
        assert_eq!(Ok(SinkResult::Ready), framed.start_send(frame.clone()));
        assert_eq!(Ok(PollResult::Ready(())), framed.poll_complete());
        match framed.poll() {
            Ok(PollResult::Ready(frame)) => back.push(frame),
            other => panic!("no frame came back: {:?}", other),
        }
        assert!(framed.buffer.is_empty());
    }
    assert_eq!(frames, back);
}

#[test]
fn send_one_sends_and_flushes() {
    let framed = Framed::new(Scripted::new(vec![], 3), LengthPrefixed);
    let mut sending = framed.send_one(b"abcd".to_vec());
    assert_eq!(Ok(PollResult::NotReady), sending.poll());
    assert!(sending.value.is_none());
    assert_eq!(Ok(PollResult::Ready(())), sending.poll());
    let framed = sending.into_inner();
    assert_eq!(frame(b"abcd"), framed.into_stream().written);
}

#[test]
fn send_one_keeps_its_item_while_the_sink_is_busy() {
    let mut framed = Framed::new(Scripted::new(vec![], 2), LengthPrefixed);
    assert_eq!(Ok(SinkResult::Ready), framed.start_send(b"abcd".to_vec()));
    let mut sending = SendOne::new(framed, b"next".to_vec());
    // Six bytes are buffered and two go out with each flush.
    assert_eq!(Ok(PollResult::NotReady), sending.poll());
    assert_eq!(Some(b"next".to_vec()), sending.value);
    assert_eq!(Ok(PollResult::NotReady), sending.poll());
    assert_eq!(Some(b"next".to_vec()), sending.value);
    // The third flush empties the buffer; the item is taken and flushed.
    assert_eq!(Ok(PollResult::NotReady), sending.poll());
    assert_eq!(None, sending.value);
}

#[test]
fn send_one_gives_the_error_of_the_flush() {
    let framed = Framed::new(Scripted::new(vec![], usize::MAX - 2), LengthPrefixed);
    let mut sending = SendOne::new(framed, b"abcd".to_vec());
    assert_eq!(Err(IoError::Other), sending.poll());
}
