use its_extract::engine::{Fault, Observation, Phase, Progress, RunError, Todo};

fn scanning(total: usize, pending: usize, quota: usize) -> Progress {
    Progress { phase: Phase::Scanning, total, pending, quota }
}

#[test]
fn a_run_begins_by_clearing_the_output() {
    let start = Progress::new(576);
    assert_eq!(start, Progress { phase: Phase::Init, total: 0, pending: 0, quota: 576 });
    assert_eq!(start.advance(Observation::Start), (start, Todo::ClearOutput));
    assert_eq!(
        start.advance(Observation::Cleared),
        (scanning(0, 0, 576), Todo::ReadBatch)
    );
}

#[test]
fn a_run_fails_when_the_output_cannot_be_cleared() {
    let (after, todo) = Progress::new(576).advance(Observation::OutputFailed);
    assert_eq!(after.phase, Phase::Failed);
    assert_eq!(todo, Todo::Abort(Fault::Output));
}

#[test]
fn the_end_of_the_input_ends_the_run() {
    let (after, todo) = scanning(10, 0, 576).advance(Observation::EndOfInput);
    assert_eq!(after, Progress { phase: Phase::Done, total: 10, pending: 0, quota: 576 });
    assert_eq!(todo, Todo::Finish);
}

#[test]
fn a_batch_without_valid_rows_does_not_end_the_run() {
    let before = scanning(10, 0, 576);
    assert_eq!(before.advance(Observation::NothingToWrite), (before, Todo::ReadBatch));
}

#[test]
fn encoded_rows_are_pending_until_appended() {
    let (waiting, todo) = scanning(10, 0, 576).advance(Observation::Encoded(20));
    assert_eq!(waiting, scanning(10, 20, 576));
    assert_eq!(todo, Todo::Append);
    let (after, todo) = waiting.advance(Observation::Appended);
    assert_eq!(after, scanning(30, 0, 576));
    assert_eq!(todo, Todo::ReadBatch);
}

#[test]
fn the_run_stops_when_the_quota_is_met() {
    let (waiting, _) = scanning(570, 0, 576).advance(Observation::Encoded(6));
    let (after, todo) = waiting.advance(Observation::Appended);
    assert_eq!(after, Progress { phase: Phase::Draining, total: 576, pending: 0, quota: 576 });
    assert_eq!(todo, Todo::Finish);
    let (waiting, _) = scanning(570, 0, 576).advance(Observation::Encoded(5));
    let (after, todo) = waiting.advance(Observation::Appended);
    assert_eq!(after, scanning(575, 0, 576));
    assert_eq!(todo, Todo::ReadBatch);
}

#[test]
fn rows_beyond_the_quota_are_refused() {
    let (after, todo) = scanning(570, 0, 576).advance(Observation::Encoded(7));
    assert_eq!(after.phase, Phase::Failed);
    assert_eq!(after.total, 570);
    assert_eq!(todo, Todo::Abort(Fault::OutOfTurn));
    let (after, todo) = scanning(0, 0, 576).advance(Observation::Encoded(0));
    assert_eq!(after.phase, Phase::Failed);
    assert_eq!(todo, Todo::Abort(Fault::OutOfTurn));
}

#[test]
fn each_failure_aborts_with_its_fault() {
    let ready = scanning(10, 0, 576);
    assert_eq!(ready.advance(Observation::ReadFailed).1, Todo::Abort(Fault::Read));
    assert_eq!(ready.advance(Observation::ReadFailed).0.phase, Phase::Failed);
    assert_eq!(ready.advance(Observation::EncodeFailed).1, Todo::Abort(Fault::Encode));
    assert_eq!(ready.advance(Observation::EncodeFailed).0.phase, Phase::Failed);
    let waiting = scanning(10, 5, 576);
    assert_eq!(waiting.advance(Observation::OutputFailed).1, Todo::Abort(Fault::Output));
    assert_eq!(
        waiting.advance(Observation::OutputFailed).0,
        Progress { phase: Phase::Failed, total: 10, pending: 0, quota: 576 }
    );
}

#[test]
fn what_comes_out_of_turn_aborts_the_run() {
    let start = Progress::new(576);
    assert_eq!(start.advance(Observation::EndOfInput).1, Todo::Abort(Fault::OutOfTurn));
    assert_eq!(start.advance(Observation::Appended).1, Todo::Abort(Fault::OutOfTurn));
    let ready = scanning(10, 0, 576);
    assert_eq!(ready.advance(Observation::Appended).1, Todo::Abort(Fault::OutOfTurn));
    assert_eq!(ready.advance(Observation::Start).1, Todo::Abort(Fault::OutOfTurn));
    assert_eq!(ready.advance(Observation::Cleared).1, Todo::Abort(Fault::OutOfTurn));
    let waiting = scanning(10, 5, 576);
    assert_eq!(waiting.advance(Observation::EndOfInput).1, Todo::Abort(Fault::OutOfTurn));
    assert_eq!(waiting.advance(Observation::Encoded(1)).1, Todo::Abort(Fault::OutOfTurn));
    assert_eq!(waiting.advance(Observation::Encoded(1)).0.phase, Phase::Failed);
}

#[test]
fn a_run_that_is_over_stays_over() {
    let done = Progress { phase: Phase::Done, total: 10, pending: 0, quota: 576 };
    let drained = Progress { phase: Phase::Draining, total: 576, pending: 0, quota: 576 };
    let failed = Progress { phase: Phase::Failed, total: 10, pending: 0, quota: 576 };
    let all = [
        Observation::Start,
        Observation::Cleared,
        Observation::EndOfInput,
        Observation::ReadFailed,
        Observation::NothingToWrite,
        Observation::Encoded(3),
        Observation::EncodeFailed,
        Observation::Appended,
        Observation::OutputFailed,
    ];
    for seen in all {
        assert_eq!(done.advance(seen), (done, Todo::Finish));
        assert_eq!(drained.advance(seen), (drained, Todo::Finish));
        assert_eq!(failed.advance(seen), (failed, Todo::Abort(Fault::OutOfTurn)));
    }
}

#[test]
fn the_total_never_passes_the_quota() {
    let mut state = Progress::new(10);
    let seen = [
        Observation::Start,
        Observation::Cleared,
        Observation::Encoded(4),
        Observation::Appended,
        Observation::NothingToWrite,
        Observation::Encoded(4),
        Observation::Appended,
        Observation::Encoded(2),
        Observation::Appended,
        Observation::Encoded(1),
        Observation::Appended,
    ];
    for observation in seen {
        state = state.advance(observation).0;
        assert!(state.total + state.pending <= state.quota);
    }
    assert_eq!(state, Progress { phase: Phase::Draining, total: 10, pending: 0, quota: 10 });
}

#[test]
fn an_error_has_the_fault_of_its_variant() {
    assert_eq!(RunError::Output.kind(), Fault::Output);
    assert_eq!(RunError::OutOfTurn.kind(), Fault::OutOfTurn);
}
