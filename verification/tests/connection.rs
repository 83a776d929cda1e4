use std::collections::VecDeque;
use std::sync::Arc;

use server_fx::connection::Connection;
use server_fx::handler::Handler;
use server_fx::pollable::{Pollable, PollableResult};
use server_fx::result::PollResult;
use server_fx::sink::{Sink, SinkResult};

/// A transport over lines that are already there: each poll gives the next
/// request, and every response is kept.
struct Lines {
    requests: VecDeque<Result<Option<String>, String>>,
    pending: Option<String>,
    flushes_needed: usize,
    responses: Vec<String>,
}

impl Lines {
    fn new(requests: Vec<Result<Option<String>, String>>, flushes_needed: usize) -> Lines {
        Lines {
            requests: requests.into(),
            pending: None,
            flushes_needed: flushes_needed,
            responses: vec![],
        }
    }
}

impl Pollable for Lines {
    type Item = String;
    type Error = String;

    fn poll(&mut self) -> Result<PollResult<String>, String> {
        match self.requests.pop_front() {
            Some(Ok(Some(request))) => Ok(PollResult::Ready(request)),
            Some(Ok(None)) => Ok(PollResult::NotReady),
            Some(Err(e)) => Err(e),
            None => Err("unexpected end of stream".to_string()),
        }
    }
}

impl Sink for Lines {
    type Item = String;
    type Error = String;

    fn start_send(&mut self, item: String) -> Result<SinkResult<String>, String> {
        if self.pending.is_some() {
            return Ok(SinkResult::NotReady(item));
        }
        if item == "poison" {
            return Err("cannot send".to_string());
        }
        self.pending = Some(item);
        Ok(SinkResult::Ready)
    }

    fn poll_complete(&mut self) -> Result<PollResult<()>, String> {
        if self.flushes_needed > 0 {
            self.flushes_needed -= 1;
            return Ok(PollResult::NotReady);
        }
        if let Some(item) = self.pending.take() {
            self.responses.push(item);
        }
        Ok(PollResult::Ready(()))
    }
}

/// Answers a request with its upper case; "bad" is an error.
struct Shout;

impl Handler for Shout {
    type Request = String;
    type Response = String;
    type Error = String;
    type Pollable = Result<String, String>;

    fn handle(&self, request: String) -> Result<String, String> {
        if request == "bad" {
            Err("bad request".to_string())
        } else if request == "toxic" {
            Ok("poison".to_string())
        } else {
            Ok(request.to_uppercase())
        }
    }
}

fn request(line: &str) -> Result<Option<String>, String> {
    Ok(Some(line.to_string()))
}

#[test]
fn new_connection_reads() {
    let connection = Connection::new(Lines::new(vec![], 0), Arc::new(Shout));
    assert!(matches!(connection, Connection::Reading(_, _)));
}

#[test]
fn two_requests_go_through_the_cycle_twice() {
    let transport = Lines::new(vec![request("one"), request("two")], 0);
    let mut connection = Connection::new(transport, Arc::new(Shout));

    assert_eq!(Ok(PollResult::NotReady), connection.poll());
    assert!(matches!(connection, Connection::Handling(_, _, _)));
    assert_eq!(Ok(PollResult::NotReady), connection.poll());
    assert!(matches!(connection, Connection::Writing(_, _)));
    assert_eq!(Ok(PollResult::NotReady), connection.poll());
    assert!(matches!(connection, Connection::Reading(_, _)));

    assert_eq!(Ok(PollResult::NotReady), connection.poll());
    assert!(matches!(connection, Connection::Handling(_, _, _)));
    assert_eq!(Ok(PollResult::NotReady), connection.poll());
    assert!(matches!(connection, Connection::Writing(_, _)));
    assert_eq!(Ok(PollResult::NotReady), connection.poll());

    match connection {
        Connection::Reading(transport, _) => {
            assert_eq!(vec!["ONE".to_string(), "TWO".to_string()], transport.responses)
        }
        _ => panic!("the connection does not read again"),
    }
}

#[test]
fn connection_stays_reading_while_no_request_is_there() {
    let transport = Lines::new(vec![Ok(None), Ok(None), request("one")], 0);
    let mut connection = Connection::new(transport, Arc::new(Shout));
    assert_eq!(Ok(PollResult::NotReady), connection.poll());
    assert!(matches!(connection, Connection::Reading(_, _)));
    assert_eq!(Ok(PollResult::NotReady), connection.poll());
    assert!(matches!(connection, Connection::Reading(_, _)));
    assert_eq!(Ok(PollResult::NotReady), connection.poll());
    assert!(matches!(connection, Connection::Handling(_, _, _)));
}

#[test]
fn connection_stays_writing_until_the_flush_is_done() {
    let transport = Lines::new(vec![request("one")], 2);
    let mut connection = Connection::new(transport, Arc::new(Shout));
    assert_eq!(Ok(PollResult::NotReady), connection.poll());
    assert_eq!(Ok(PollResult::NotReady), connection.poll());
    assert!(matches!(connection, Connection::Writing(_, _)));
    assert_eq!(Ok(PollResult::NotReady), connection.poll());
    assert!(matches!(connection, Connection::Writing(_, _)));
    assert_eq!(Ok(PollResult::NotReady), connection.poll());
    assert!(matches!(connection, Connection::Writing(_, _)));
    assert_eq!(Ok(PollResult::NotReady), connection.poll());
    assert!(matches!(connection, Connection::Reading(_, _)));
}

#[test]
fn end_of_stream_ends_the_connection() {
    let transport = Lines::new(vec![request("one")], 0);
    let mut connection = Connection::new(transport, Arc::new(Shout));
    assert_eq!(Ok(PollResult::NotReady), connection.poll());
    assert_eq!(Ok(PollResult::NotReady), connection.poll());
    assert_eq!(Ok(PollResult::NotReady), connection.poll());
    assert_eq!(Err("unexpected end of stream".to_string()), connection.poll());
    assert!(matches!(connection, Connection::Done));
}

#[test]
fn read_error_ends_the_connection() {
    let transport = Lines::new(vec![Err("reset".to_string())], 0);
    let mut connection = Connection::new(transport, Arc::new(Shout));
    assert_eq!(Err("reset".to_string()), connection.poll());
    assert!(matches!(connection, Connection::Done));
}

#[test]
fn handler_error_ends_the_connection() {
    let transport = Lines::new(vec![request("bad")], 0);
    let mut connection = Connection::new(transport, Arc::new(Shout));
    assert_eq!(Ok(PollResult::NotReady), connection.poll());
    assert_eq!(Err("bad request".to_string()), connection.poll());
    assert!(matches!(connection, Connection::Done));
}

#[test]
fn write_error_ends_the_connection() {
    let transport = Lines::new(vec![request("toxic")], 0);
    let mut connection = Connection::new(transport, Arc::new(Shout));
    assert_eq!(Ok(PollResult::NotReady), connection.poll());
    assert_eq!(Ok(PollResult::NotReady), connection.poll());
    assert_eq!(Err("cannot send".to_string()), connection.poll());
    assert!(matches!(connection, Connection::Done));
}

#[test]
fn handled_response_is_a_known_result() {
    let response = Shout.handle("one".to_string());
    assert_eq!(Ok("ONE".to_string()), response);
    let mut lifted: PollableResult<String, String> =
        server_fx::pollable::IntoPollable::into_pollable(response);
    assert_eq!(Ok(PollResult::Ready("ONE".to_string())), lifted.poll());
}
