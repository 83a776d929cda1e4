use std::cell::{Ref, RefCell};
use std::io::Cursor;

use server_fx::pollable::Pollable;
use server_fx::result::PollResult;
use server_fx::stream::{IoError, Read, Write};
use server_fx::twist::Twister;

// This type wraps a source of bytes and simulates
// bytes arriving after `ready_every` calls. It
// also trickles `read`s one byte at a time.
#[derive(Debug)]
struct Trickle {
    inner: Cursor<Vec<u8>>,
    call_count: usize,
    ready_every: usize,
}

impl Trickle {
    fn new(inner: Cursor<Vec<u8>>, ready_every: usize) -> Trickle {
        Trickle {
            inner: inner,
            call_count: 0,
            ready_every: ready_every,
        }
    }

    fn read(&mut self) -> Result<Vec<u8>, IoError> {
        self.call_count += 1;
        if 0 == ((self.call_count - 1) % self.ready_every) {
            let mut byte = [0_u8; 1];
            match std::io::Read::read(&mut self.inner, &mut byte[..1]) {
                Ok(n) => Ok(byte[..n].to_vec()),
                Err(_) => Err(IoError::Other),
            }
        } else {
            Err(IoError::WouldBlock)
        }
    }
}

// `Half` must wrap its two directions in `RefCell`s so
// that we can read and write to it using a shared alias
// (I.E. `&self`, instead of `&mut self`).
// This is a requirement of `Twister`
#[derive(Debug)]
struct Half {
    output: RefCell<Trickle>,
    input: RefCell<Cursor<Vec<u8>>>,
}

impl Half {
    fn new(initial_content: &[u8], ready_every: usize) -> Half {
        Half {
            output: RefCell::new(Trickle::new(
                Cursor::new(initial_content.to_vec()),
                ready_every,
            )),
            input: RefCell::new(Cursor::new(vec![])),
        }
    }

    fn write_buffer(&self) -> Ref<Cursor<Vec<u8>>> {
        self.input.borrow()
    }
}

impl<'a> Read for &'a Half {
    fn read(&mut self, _limit: usize) -> Result<Vec<u8>, IoError> {
        self.output.borrow_mut().read()
    }
}

impl<'a> Write for &'a Half {
    fn write(&mut self, buffer: &[u8]) -> Result<usize, IoError> {
        match std::io::Write::write(&mut *self.input.borrow_mut(), buffer) {
            Ok(n) => Ok(n),
            Err(_) => Err(IoError::Other),
        }
    }
}

#[test]
fn copy_both_halves() {
    let first_content = b"Hello, from first half";
    let second_content = b"Hello, from second half";
    let first_half = Half::new(first_content, 1);
    let second_half = Half::new(second_content, 7);

    let mut twister = Twister::new(first_half, second_half);
    let value = loop {
        if let PollResult::Ready(v) = twister.poll().unwrap() {
            break v;
        }
    };

    let (first_half, second_half) = twister.into_inner().unwrap();

    assert_eq!((first_content.len(), second_content.len()), value);

    assert_eq!(
        b"Hello, from second half",
        &(*first_half.write_buffer()).get_ref()[..]
    );

    assert_eq!(
        b"Hello, from first half",
        &(*second_half.write_buffer()).get_ref()[..]
    );
}
