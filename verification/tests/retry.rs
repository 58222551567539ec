use strapper::retry::{backoff_secs, run, AfterAttempt, Plan, Retry, Verdict, MAX_ATTEMPTS};

#[test]
fn backoff_doubles_from_one_second() {
    let expected: [u64; 10] = [1, 2, 4, 8, 16, 32, 64, 128, 256, 512];
    for attempt in 0..10u32 {
        assert_eq!(backoff_secs(attempt), expected[attempt as usize]);
    }
    assert_eq!(MAX_ATTEMPTS, 10);
}

#[test]
fn ten_failures_give_the_whole_backoff_sequence_and_then_give_up() {
    let (waits, verdict) = run(&vec![false; 10]);
    assert_eq!(waits, vec![1, 2, 4, 8, 16, 32, 64, 128, 256, 512]);
    assert_eq!(verdict, Verdict::ExceededRetries);
}

#[test]
fn there_is_no_eleventh_attempt() {
    let mut outcomes = vec![false; 10];
    outcomes.push(true);
    let (waits, verdict) = run(&outcomes);
    assert_eq!(waits.len(), 10);
    assert_eq!(verdict, Verdict::ExceededRetries);
}

#[test]
fn a_success_ends_the_advertisement() {
    assert_eq!(run(&vec![true]), (vec![], Verdict::Advertised));
    assert_eq!(run(&vec![false, false, true, false]), (vec![1, 2], Verdict::Advertised));
    let mut last = vec![false; 9];
    last.push(true);
    assert_eq!(run(&last), (vec![1, 2, 4, 8, 16, 32, 64, 128, 256], Verdict::Advertised));
}

#[test]
fn too_few_outcomes_leave_the_advertisement_unfinished() {
    assert_eq!(run(&vec![]), (vec![], Verdict::Unfinished));
    assert_eq!(run(&vec![false, false, false]), (vec![1, 2, 4], Verdict::Unfinished));
}

#[test]
fn the_state_counts_failures() {
    let mut retry = Retry::new();
    assert_eq!(retry.plan(), Plan::Attempt);
    assert_eq!(retry.record(false), AfterAttempt::Wait(1));
    assert_eq!(retry.record(false), AfterAttempt::Wait(2));
    assert_eq!(retry.failures, 2);
    assert_eq!(retry.record(true), AfterAttempt::Done);
    assert_eq!(retry.failures, 2);
    let mut spent = Retry { failures: 9 };
    assert_eq!(spent.plan(), Plan::Attempt);
    assert_eq!(spent.record(false), AfterAttempt::Wait(512));
    assert_eq!(spent.plan(), Plan::GiveUp);
}
