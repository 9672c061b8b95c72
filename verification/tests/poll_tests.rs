use pipechan::poll::{readiness_step, Attempt, Step};
use pipechan::PipeError;

#[test]
fn transfer_completes_with_the_count() {
    assert_eq!(readiness_step(Attempt::Transferred(3)), Step::Done(3));
    assert_eq!(readiness_step(Attempt::Transferred(0)), Step::Done(0));
}

#[test]
fn would_block_parks_the_task() {
    assert_eq!(readiness_step(Attempt::WouldBlock), Step::Park);
}

#[test]
fn failure_completes_with_the_error() {
    assert_eq!(
        readiness_step(Attempt::Failed(PipeError::Os(4))),
        Step::Fail(PipeError::Os(4))
    );
}
