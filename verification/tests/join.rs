use server_fx::pollable::{Combine, Pollable};
use server_fx::result::PollResult;

struct YieldAfter(usize);

impl Pollable for YieldAfter {
    type Item = usize;
    type Error = ();

    fn poll(&mut self) -> Result<PollResult<Self::Item>, Self::Error> {
        if self.0 == 0 {
            return Ok(PollResult::Ready(42));
        }

        self.0 -= 1;

        Ok(PollResult::NotReady)
    }
}

#[test]
fn join() {
    let mut join = YieldAfter(0).join(YieldAfter(4));

    assert_eq!(Ok(PollResult::NotReady), join.poll());
    assert_eq!(Ok(PollResult::NotReady), join.poll());
    assert_eq!(Ok(PollResult::NotReady), join.poll());
    assert_eq!(Ok(PollResult::NotReady), join.poll());
    assert_eq!(Ok(PollResult::Ready((42, 42))), join.poll());
}
