use aloe::manage::{RunResult, TaskState};

#[test]
fn new_task_has_no_references() {
    let mut state = TaskState::new();
    assert_eq!(state.add_ref(), 1);
    assert_eq!(state.add_ref(), 2);
    assert_eq!(state.sub_ref(), 1);
    assert_eq!(state.sub_ref(), 0);
}

#[test]
fn finished_task_is_never_polled_again() {
    let mut state = TaskState::new();
    state.add_ref();
    let mut calls = 0;
    let first = state.poll_lifecycle(|| {
        calls += 1;
        RunResult::Finished
    });
    assert_eq!(first, RunResult::Finished);
    let second = state.poll_lifecycle(|| {
        calls += 1;
        RunResult::Pending
    });
    assert_eq!(second, RunResult::Finished);
    assert_eq!(calls, 1);
}

#[test]
fn pending_task_is_polled_again() {
    let mut state = TaskState::new();
    state.add_ref();
    let mut calls = 0;
    assert_eq!(
        state.poll_lifecycle(|| {
            calls += 1;
            RunResult::Pending
        }),
        RunResult::Pending
    );
    assert_eq!(
        state.poll_lifecycle(|| {
            calls += 1;
            RunResult::Finished
        }),
        RunResult::Finished
    );
    assert_eq!(calls, 2);
}

#[test]
fn output_is_consumed_once() {
    let mut state = TaskState::new();
    state.add_ref();
    assert!(!state.try_consume());
    assert_eq!(state.poll_lifecycle(|| RunResult::Finished), RunResult::Finished);
    assert!(state.try_consume());
    assert!(!state.try_consume());
    // Still reports finished after the output was taken
    assert_eq!(state.poll_lifecycle(|| RunResult::Pending), RunResult::Finished);
}

#[test]
fn canceled_task_stays_canceled() {
    let mut state = TaskState::new();
    state.add_ref();
    assert_eq!(state.poll_lifecycle(|| RunResult::Canceled), RunResult::Canceled);
    assert_eq!(state.poll_lifecycle(|| RunResult::Finished), RunResult::Canceled);
    assert!(!state.try_consume());
    // Counting references leaves the flags alone
    assert_eq!(state.add_ref(), 2);
    assert_eq!(state.sub_ref(), 1);
    assert_eq!(state.poll_lifecycle(|| RunResult::Finished), RunResult::Canceled);
}

#[test]
fn yield_is_pending_once() {
    let mut y = aloe::manage::Yield::new();
    assert!(!y.poll_ready());
    assert!(y.poll_ready());
    assert!(y.poll_ready());
}
