use qable::executor::{RetryDecision, RetryPolicy, RetryRun};

#[test]
fn backoff_schedule_with_perpetual_failure() {
    let policy = RetryPolicy { backoff_millis: 250, retries: 3 };
    let mut run = RetryRun::start(policy);
    let mut sleeps: Vec<u64> = Vec::new();
    let mut attempts: u32 = 0;
    let result: Option<String> = None;
    loop {
        // the result handler perpetually fails
        attempts += 1;
        match run.record_attempt(false) {
            RetryDecision::Done => unreachable!("the handler never succeeds"),
            RetryDecision::Retry { sleep_millis } => sleeps.push(sleep_millis),
            RetryDecision::GiveUp { sleep_millis } => {
                sleeps.push(sleep_millis);
                break;
            },
        }
    }
    assert_eq!(attempts, 3);
    assert_eq!(sleeps, vec![250, 500, 750]);
    assert_eq!(sleeps.iter().sum::<u64>(), 1500);
    assert!(result.is_none());
}

#[test]
fn done_attempt_stops_immediately() {
    let policy = RetryPolicy { backoff_millis: 250, retries: 3 };
    let mut run = RetryRun::start(policy);
    assert_eq!(run.record_attempt(true), RetryDecision::Done);
    assert_eq!(run.attempts, 0);
}

#[test]
fn failure_after_success_pattern() {
    let policy = RetryPolicy { backoff_millis: 100, retries: 5 };
    let mut run = RetryRun::start(policy);
    assert_eq!(run.record_attempt(false), RetryDecision::Retry { sleep_millis: 100 });
    assert_eq!(run.record_attempt(false), RetryDecision::Retry { sleep_millis: 200 });
    assert_eq!(run.record_attempt(true), RetryDecision::Done);
    assert_eq!(run.attempts, 2);
}

#[test]
fn single_retry_gives_up_at_once() {
    let policy = RetryPolicy { backoff_millis: 40, retries: 1 };
    let mut run = RetryRun::start(policy);
    assert_eq!(run.record_attempt(false), RetryDecision::GiveUp { sleep_millis: 40 });
    assert_eq!(run.attempts, 1);
}

#[test]
fn zero_retries_still_admit_one_attempt() {
    let policy = RetryPolicy { backoff_millis: 40, retries: 0 };
    let mut run = RetryRun::start(policy);
    assert_eq!(run.record_attempt(false), RetryDecision::GiveUp { sleep_millis: 40 });
    assert_eq!(run.attempts, 1);
}
