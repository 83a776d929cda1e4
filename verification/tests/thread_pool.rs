use server_fx::pollable::Pollable;
use server_fx::result::PollResult;
use server_fx::server::TcpServer;
use server_fx::thread_pool::{pump_connections, Receive, RoundRobin, Worker, NUM_THREADS};

/// Gives `NotReady` for `after` polls, then its value or, if `fails`, an
/// error. It counts its polls.
#[derive(Debug, PartialEq)]
struct Task {
    name: u32,
    after: usize,
    fails: bool,
    polls: usize,
}

fn task(name: u32, after: usize) -> Option<Task> {
    Some(Task {
        name: name,
        after: after,
        fails: false,
        polls: 0,
    })
}

impl Pollable for Task {
    type Item = u32;
    type Error = ();

    fn poll(&mut self) -> Result<PollResult<u32>, ()> {
        self.polls += 1;
        if self.after == 0 {
            return if self.fails {
                Err(())
            } else {
                Ok(PollResult::Ready(self.name))
            };
        }
        self.after -= 1;
        Ok(PollResult::NotReady)
    }
}

fn names(slots: &Vec<Option<Task>>) -> Vec<u32> {
    slots.iter().map(|slot| slot.as_ref().unwrap().name).collect()
}

#[test]
fn server_starts_four_workers() {
    assert_eq!(4, NUM_THREADS);
}

#[test]
fn round_robin_starts_with_the_first_worker_and_wraps() {
    let mut dispatcher = RoundRobin::new(3);
    let order: Vec<usize> = (0..7).map(|_| dispatcher.queue()).collect();
    assert_eq!(vec![0, 1, 2, 0, 1, 2, 0], order);
}

#[test]
fn round_robin_over_one_worker_stays_there() {
    let mut dispatcher = RoundRobin::new(1);
    assert_eq!(0, dispatcher.queue());
    assert_eq!(0, dispatcher.queue());
}

#[test]
fn ten_streams_over_four_workers_are_shared_fairly() {
    let mut dispatcher = RoundRobin::new(4);
    let mut shares = [0; 4];
    for _ in 0..10 {
        shares[dispatcher.queue()] += 1;
    }
    // 10 / 4 rounded up for the first 10 % 4 workers, rounded down for the rest.
    assert_eq!([3, 3, 2, 2], shares);
}

#[test]
fn pump_polls_each_connection_once() {
    let mut slots = vec![task(1, 3), task(2, 3), task(3, 3)];
    pump_connections(&mut slots);
    assert_eq!(vec![1, 2, 3], names(&slots));
    for slot in slots.iter() {
        assert_eq!(1, slot.as_ref().unwrap().polls);
        assert_eq!(2, slot.as_ref().unwrap().after);
    }
}

#[test]
fn pump_drops_what_gave_a_value_or_an_error() {
    let failing = Some(Task {
        name: 2,
        after: 0,
        fails: true,
        polls: 0,
    });
    let mut slots = vec![task(1, 0), failing, task(3, 1), task(4, 2)];
    pump_connections(&mut slots);
    // The slots of 1 and 2 are filled from the end: 4 moves to the second
    // slot, then 3 to the first.
    assert_eq!(vec![3, 4], names(&slots));
}

#[test]
fn pump_moves_the_last_connection_into_an_empty_slot() {
    let mut slots = vec![task(1, 1), task(2, 0), task(3, 1), task(4, 1)];
    pump_connections(&mut slots);
    assert_eq!(vec![1, 4, 3], names(&slots));
}

#[test]
fn pump_of_nothing_does_nothing() {
    let mut slots: Vec<Option<Task>> = vec![];
    pump_connections(&mut slots);
    assert!(slots.is_empty());
}

#[test]
fn worker_blocks_only_when_it_has_no_connection() {
    let mut worker: Worker<Task> = Worker::new();
    assert_eq!(Receive::Blocking, worker.receive());
    worker.turn(task(1, 2));
    assert_eq!(Receive::Polling, worker.receive());
    worker.turn(None);
    assert_eq!(Receive::Polling, worker.receive());
    worker.turn(None);
    assert_eq!(Receive::Blocking, worker.receive());
}

#[test]
fn worker_pumps_the_connection_that_came_in() {
    let mut worker: Worker<Task> = Worker::new();
    worker.turn(task(1, 5));
    worker.turn(task(2, 5));
    assert_eq!(vec![1, 2], names(worker.connections()));
    assert_eq!(2, worker.connections()[0].as_ref().unwrap().polls);
    assert_eq!(1, worker.connections()[1].as_ref().unwrap().polls);
}

#[test]
fn server_shares_its_protocol() {
    let server = TcpServer::new("line protocol".to_string());
    let first = server.proto();
    let second = server.proto();
    assert_eq!("line protocol", *first);
    assert!(std::sync::Arc::ptr_eq(&first, &second));
}
