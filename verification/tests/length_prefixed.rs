use server_fx::codec::{Decode, Encode, LengthPrefixed, PREFIX_SIZE};
use server_fx::framed::Framed;
use server_fx::pollable::Pollable;
use server_fx::result::PollResult;
use server_fx::sink::{Sink, SinkResult};
use server_fx::stream::{Duplex, IoError, Read, Write};

#[test]
fn duplex_gives_back_what_it_was_given() {
    let mut stream = Duplex::new();
    assert_eq!(Err(IoError::WouldBlock), stream.read(4));
    assert_eq!(Ok(5), stream.write(b"hello"));
    assert_eq!(Ok(2), stream.write(b", "));
    assert_eq!(b"hello, ".to_vec(), stream.held);
    assert_eq!(Ok(b"hell".to_vec()), stream.read(4));
    assert_eq!(Ok(b"o, ".to_vec()), stream.read(4));
    assert_eq!(Err(IoError::WouldBlock), stream.read(4));
    assert_eq!(Ok(0), stream.write(b""));
    assert_eq!(Err(IoError::WouldBlock), stream.read(4));
}

#[test]
fn frame_on_the_wire() {
    assert_eq!(8, PREFIX_SIZE);
    let mut buffer = b"x".to_vec();
    LengthPrefixed.encode(b"abc".to_vec(), &mut buffer);
    assert_eq!(vec![b'x', 3, 0, 0, 0, 0, 0, 0, 0, b'a', b'b', b'c'], buffer);
    let mut buffer = vec![];
    LengthPrefixed.encode(vec![7; 258], &mut buffer);
    assert_eq!(&[2, 1, 0, 0, 0, 0, 0, 0, 7][..], &buffer[..9]);
    assert_eq!(266, buffer.len());
}

#[test]
fn frame_is_taken_when_all_of_it_is_there() {
    let mut buffer = vec![3, 0, 0, 0, 0, 0, 0, 0, b'a', b'b'];
    assert_eq!(None, LengthPrefixed.decode(&mut buffer));
    assert_eq!(10, buffer.len());
    buffer.push(b'c');
    buffer.extend_from_slice(&[0, 0]);
    assert_eq!(Some(b"abc".to_vec()), LengthPrefixed.decode(&mut buffer));
    assert_eq!(vec![0, 0], buffer);
    assert_eq!(None, LengthPrefixed.decode(&mut buffer));
}

#[test]
fn empty_frame() {
    let mut buffer = vec![];
    LengthPrefixed.encode(vec![], &mut buffer);
    assert_eq!(vec![0; 8], buffer);
    assert_eq!(Some(vec![]), LengthPrefixed.decode(&mut buffer));
    assert!(buffer.is_empty());
    assert_eq!(None, LengthPrefixed.decode(&mut buffer));
}

#[test]
fn length_that_is_more_than_the_buffer_holds() {
    let mut buffer = vec![0xff; 8];
    buffer.extend_from_slice(b"some bytes");
    assert_eq!(None, LengthPrefixed.decode(&mut buffer));
    assert_eq!(18, buffer.len());
}

#[test]
fn frames_come_back_over_the_duplex_stream() {
    let frames: Vec<Vec<u8>> = vec![b"one".to_vec(), vec![], vec![9; 3000], b"last".to_vec()];
    let mut framed = Framed::new(Duplex::new(), LengthPrefixed);
    for frame in frames.iter() {
        assert_eq!(Ok(SinkResult::Ready), framed.start_send(frame.clone()));
        assert_eq!(Ok(PollResult::Ready(())), framed.poll_complete());
        assert_eq!(Ok(PollResult::Ready(frame.clone())), framed.poll());
        assert!(framed.buffer.is_empty());
        assert!(framed.stream.held.is_empty());
    }
    assert_eq!(Ok(PollResult::NotReady), framed.poll());
}
