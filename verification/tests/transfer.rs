use std::cell::RefCell;
use std::collections::VecDeque;
use std::rc::Rc;

use server_fx::pollable::Pollable;
use server_fx::result::PollResult;
use server_fx::stream::{IoError, Read, Write};
use server_fx::twist::{Transfer, TransferState, Twister, BUFFER_SIZE};

/// An endpoint that gives the chunks of its script and takes at most
/// `accepts` bytes with each write.
struct End {
    gives: RefCell<VecDeque<Result<Vec<u8>, IoError>>>,
    accepts: RefCell<VecDeque<Result<usize, IoError>>>,
    taken: RefCell<Vec<u8>>,
    asked: RefCell<Vec<usize>>,
}

impl End {
    fn new(gives: Vec<Result<Vec<u8>, IoError>>, accepts: Vec<Result<usize, IoError>>) -> End {
        End {
            gives: RefCell::new(gives.into()),
            accepts: RefCell::new(accepts.into()),
            taken: RefCell::new(vec![]),
            asked: RefCell::new(vec![]),
        }
    }
}

impl<'a> Read for &'a End {
    fn read(&mut self, limit: usize) -> Result<Vec<u8>, IoError> {
        self.asked.borrow_mut().push(limit);
        self.gives.borrow_mut().pop_front().unwrap_or(Ok(vec![]))
    }
}

impl<'a> Write for &'a End {
    fn write(&mut self, data: &[u8]) -> Result<usize, IoError> {
        match self.accepts.borrow_mut().pop_front() {
            Some(Ok(n)) => {
                let n = n.min(data.len());
                self.taken.borrow_mut().extend_from_slice(&data[..n]);
                Ok(n)
            }
            Some(Err(e)) => Err(e),
            None => {
                self.taken.borrow_mut().extend_from_slice(data);
                Ok(data.len())
            }
        }
    }
}

#[test]
fn new_transfer_reads() {
    let transfer = Transfer::new(
        Rc::new(End::new(vec![], vec![])),
        Rc::new(End::new(vec![], vec![])),
    );
    assert_eq!(TransferState::Reading, transfer.state);
    assert_eq!(0, transfer.transferred);
    let (source, destination) = transfer.into_inner();
    assert_eq!(1, Rc::strong_count(&source));
    assert_eq!(1, Rc::strong_count(&destination));
}

#[test]
fn transfer_moves_everything_and_counts_it() {
    let source = Rc::new(End::new(
        vec![Ok(b"hello, ".to_vec()), Ok(b"world".to_vec())],
        vec![],
    ));
    let destination = Rc::new(End::new(vec![], vec![]));
    let mut transfer = Transfer::new(source.clone(), destination.clone());
    assert_eq!(Ok(PollResult::Ready(12)), transfer.poll());
    assert_eq!(b"hello, world".to_vec(), *destination.taken.borrow());
    assert_eq!(vec![BUFFER_SIZE; 3], *source.asked.borrow());
    assert_eq!(8192, BUFFER_SIZE);
}

#[test]
fn transfer_writes_on_from_where_a_write_stopped() {
    let source = Rc::new(End::new(vec![Ok(b"abcdefgh".to_vec())], vec![]));
    let destination = Rc::new(End::new(vec![], vec![Ok(3), Ok(2), Ok(100)]));
    let mut transfer = Transfer::new(source, destination.clone());
    assert_eq!(Ok(PollResult::Ready(8)), transfer.poll());
    assert_eq!(b"abcdefgh".to_vec(), *destination.taken.borrow());
}

#[test]
fn transfer_waits_where_the_source_would_block() {
    let source = Rc::new(End::new(
        vec![Ok(b"ab".to_vec()), Err(IoError::WouldBlock), Ok(b"cd".to_vec())],
        vec![],
    ));
    let destination = Rc::new(End::new(vec![], vec![]));
    let mut transfer = Transfer::new(source, destination.clone());
    assert_eq!(Ok(PollResult::NotReady), transfer.poll());
    assert_eq!(2, transfer.transferred);
    assert_eq!(TransferState::Reading, transfer.state);
    assert_eq!(Ok(PollResult::Ready(4)), transfer.poll());
    assert_eq!(b"abcd".to_vec(), *destination.taken.borrow());
}

#[test]
fn transfer_waits_where_the_destination_would_block() {
    let source = Rc::new(End::new(vec![Ok(b"abcd".to_vec())], vec![]));
    let destination = Rc::new(End::new(
        vec![],
        vec![Ok(1), Err(IoError::WouldBlock), Ok(3)],
    ));
    let mut transfer = Transfer::new(source, destination.clone());
    assert_eq!(Ok(PollResult::NotReady), transfer.poll());
    assert_eq!(TransferState::Writing(1), transfer.state);
    assert_eq!(1, transfer.transferred);
    assert_eq!(Ok(PollResult::Ready(4)), transfer.poll());
    assert_eq!(b"abcd".to_vec(), *destination.taken.borrow());
}

#[test]
fn transfer_ends_where_the_destination_takes_nothing() {
    let source = Rc::new(End::new(vec![Ok(b"abcd".to_vec())], vec![]));
    let destination = Rc::new(End::new(vec![], vec![Ok(2), Ok(0)]));
    let mut transfer = Transfer::new(source, destination);
    assert_eq!(Ok(PollResult::Ready(2)), transfer.poll());
}

#[test]
fn transfer_gives_the_errors_of_its_ends() {
    let source = Rc::new(End::new(vec![Err(IoError::Os(32))], vec![]));
    let destination = Rc::new(End::new(vec![], vec![]));
    let mut transfer = Transfer::new(source, destination);
    assert_eq!(Err(IoError::Os(32)), transfer.poll());

    let source = Rc::new(End::new(vec![Ok(b"ab".to_vec())], vec![]));
    let destination = Rc::new(End::new(vec![], vec![Err(IoError::Other)]));
    let mut transfer = Transfer::new(source, destination);
    assert_eq!(Err(IoError::Other), transfer.poll());
}

#[test]
fn twister_swaps_what_its_ends_hold() {
    let first = End::new(
        vec![Ok(b"from".to_vec()), Err(IoError::WouldBlock), Ok(b" first".to_vec())],
        vec![Ok(2)],
    );
    let second = End::new(vec![Ok(b"from second".to_vec())], vec![Ok(1), Ok(1)]);
    let mut twister = Twister::new(first, second);
    assert_eq!(Ok(PollResult::NotReady), twister.poll());
    assert_eq!(Ok(PollResult::Ready((10, 11))), twister.poll());
    let (first, second) = twister.into_inner().unwrap();
    assert_eq!(b"from second".to_vec(), *first.taken.borrow());
    assert_eq!(b"from first".to_vec(), *second.taken.borrow());
}
