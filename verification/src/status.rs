//! Status vocabulary shared by `media_items`, `downloads` and `jobs`, and the
//! retry policy that moves a download between them.
use vstd::prelude::*;
use crate::text::{append_chars, decimal, push_decimal, str_chars, string_from_chars};

verus! {

/// Every status a media item, download or job can be in.
#[derive(Clone, Copy, Debug, PartialEq, Eq, Structural)]
pub enum Status {
    Discovering,
    Ready,
    Queued,
    Downloading,
    Processing,
    Completed,
    Paused,
    Retrying,
    Failed,
    Cancelled,
}

/// The text stored in the database for each status.
pub open spec fn status_text(s: Status) -> Seq<char> {
    match s {
        Status::Discovering => "DISCOVERING"@,
        Status::Ready => "READY"@,
        Status::Queued => "QUEUED"@,
        Status::Downloading => "DOWNLOADING"@,
        Status::Processing => "PROCESSING"@,
        Status::Completed => "COMPLETED"@,
        Status::Paused => "PAUSED"@,
        Status::Retrying => "RETRYING"@,
        Status::Failed => "FAILED"@,
        Status::Cancelled => "CANCELLED"@,
    }
}

impl Status {
    /// The text stored in the database for this status.
    pub fn as_str(&self) -> (r: &'static str)
        ensures
            r@ == status_text(*self),
    {
        match self {
            Status::Discovering => "DISCOVERING",
            Status::Ready => "READY",
            Status::Queued => "QUEUED",
            Status::Downloading => "DOWNLOADING",
            Status::Processing => "PROCESSING",
            Status::Completed => "COMPLETED",
            Status::Paused => "PAUSED",
            Status::Retrying => "RETRYING",
            Status::Failed => "FAILED",
            Status::Cancelled => "CANCELLED",
        }
    }
}

/// Attempts a download gets before it is failed for good.
pub const MAX_ATTEMPTS: u32 = 3;

pub open spec fn pow4(k: nat) -> int
    decreases k,
{
    if k == 0 {
        1
    } else {
        4 * pow4((k - 1) as nat)
    }
}

/// `30 * 4^(attempt_count - 1)` seconds, with `attempt_count - 1` saturating at 0.
pub open spec fn backoff(attempt_count: nat) -> int {
    30 * pow4(if attempt_count == 0 { 0 } else { (attempt_count - 1) as nat })
}

proof fn lemma_pow4_monotone(i: nat, j: nat)
    requires
        i <= j,
    ensures
        1 <= pow4(i) <= pow4(j),
    decreases j,
{
    if j > i {
        lemma_pow4_monotone(i, (j - 1) as nat);
    } else if i > 0 {
        lemma_pow4_monotone((i - 1) as nat, (i - 1) as nat);
    }
}

/// Exponential backoff for retry scheduling: 30s, 2m, 8m, ...
/// (`attempt_count` past 30 overflows `i64`).
pub fn backoff_seconds(attempt_count: u32) -> (r: i64)
    requires
        attempt_count <= 30,
    ensures
        r == backoff(attempt_count as nat),
{
    let k: u32 = attempt_count.saturating_sub(1);
    proof {
        reveal_with_fuel(pow4, 30);
        assert(pow4(29) == 288230376151711744);
    }
    let mut p: i64 = 1;
    let mut i: u32 = 0;
    while i < k
        invariant
            i <= k <= 29,
            p == pow4(i as nat),
            pow4(29) == 288230376151711744,
        decreases k - i,
    {
        proof {
            lemma_pow4_monotone((i + 1) as nat, 29);
        }
        p = p * 4;
        i = i + 1;
    }
    proof {
        lemma_pow4_monotone(k as nat, 29);
    }
    30 * p
}

/// Each further attempt waits four times as long as the one before.
pub proof fn lemma_backoff_grows_fourfold(attempt_count: nat)
    requires
        attempt_count >= 1,
    ensures
        backoff(attempt_count + 1) == 4 * backoff(attempt_count),
        backoff(0) == backoff(1) == 30,
        backoff(attempt_count) > 0,
{
    lemma_pow4_monotone(0, (attempt_count - 1) as nat);
    assert(pow4(attempt_count) == 4 * pow4((attempt_count - 1) as nat));
}

/// Up to 30 attempts the backoff is positive and fits in an `i64`.
pub proof fn lemma_backoff_fits(attempt_count: nat)
    requires
        attempt_count <= 30,
    ensures
        0 < backoff(attempt_count) <= i64::MAX,
{
    reveal_with_fuel(pow4, 30);
    assert(pow4(29) == 288230376151711744);
    let k: nat = if attempt_count == 0 { 0 } else { (attempt_count - 1) as nat };
    lemma_pow4_monotone(k, 29);
}

/// What one failed attempt leaves a download in.
#[derive(Clone, Copy, Debug, PartialEq, Eq, Structural)]
pub struct FailureOutcome {
    pub status: Status,
    pub attempt_count: u32,
    /// For `Retrying`: how long to wait before the next attempt.
    pub retry_after_seconds: Option<i64>,
}

/// After the `attempt_count`-th failed attempt: `Retrying` with a backoff
/// below `MAX_ATTEMPTS`, terminal `Failed` from there on.
pub open spec fn failure_outcome_spec(attempt_count: u32) -> FailureOutcome {
    if attempt_count >= MAX_ATTEMPTS {
        FailureOutcome { status: Status::Failed, attempt_count, retry_after_seconds: None }
    } else {
        FailureOutcome {
            status: Status::Retrying,
            attempt_count,
            retry_after_seconds: Some(backoff(attempt_count as nat) as i64),
        }
    }
}

pub fn failure_outcome(attempt_count: u32) -> (r: FailureOutcome)
    ensures
        r == failure_outcome_spec(attempt_count),
{
    if attempt_count >= MAX_ATTEMPTS {
        FailureOutcome { status: Status::Failed, attempt_count, retry_after_seconds: None }
    } else {
        let b = backoff_seconds(attempt_count);
        FailureOutcome { status: Status::Retrying, attempt_count, retry_after_seconds: Some(b) }
    }
}

/// No download is retried once it has failed `MAX_ATTEMPTS` times, and every
/// retry waits a positive time.
pub proof fn lemma_retries_are_bounded(attempt_count: u32)
    ensures
        failure_outcome_spec(attempt_count).status == Status::Retrying <==> attempt_count
            < MAX_ATTEMPTS,
        failure_outcome_spec(attempt_count).status == Status::Retrying ==> (failure_outcome_spec(
            attempt_count,
        ).retry_after_seconds matches Some(s) && s > 0),
        failure_outcome_spec(attempt_count).status == Status::Failed <==> attempt_count
            >= MAX_ATTEMPTS,
        attempt_count < MAX_ATTEMPTS ==> failure_outcome_spec(attempt_count).retry_after_seconds
            == Some(backoff(attempt_count as nat) as i64),
        attempt_count >= MAX_ATTEMPTS ==> failure_outcome_spec(attempt_count).retry_after_seconds
            is None,
        failure_outcome_spec(attempt_count).attempt_count == attempt_count,
{
    if attempt_count < MAX_ATTEMPTS {
        lemma_pow4_monotone(0, 2);
        reveal_with_fuel(pow4, 3);
    }
}

/// The statuses a fresh download goes through over `k` failed attempts:
/// each recorded failure raises the stored count by one, starting from 0.
pub open spec fn failure_history(k: nat) -> Seq<Status> {
    Seq::new(k, |i: int| failure_outcome_spec((i + 1) as u32).status)
}

/// Successive failures of one download are `RETRYING` until the count
/// reaches `MAX_ATTEMPTS`, `FAILED` from then on, and `FAILED` is never left.
pub proof fn lemma_failure_history(k: nat)
    requires
        k <= u32::MAX,
    ensures
        forall|i: int|
            0 <= i < k ==> #[trigger] failure_history(k)[i] == (if i + 1 < MAX_ATTEMPTS {
                Status::Retrying
            } else {
                Status::Failed
            }),
        forall|i: int, j: int|
            0 <= i < j < k && #[trigger] failure_history(k)[i] == Status::Failed ==> #[trigger] failure_history(
                k,
            )[j] == Status::Failed,
{
}

/// The SQLite `datetime('now', ..)` modifier that schedules a retry:
/// `+{seconds} seconds`.
pub open spec fn retry_modifier_text(seconds: int) -> Seq<char> {
    seq!['+'] + decimal(seconds) + " seconds"@
}

pub fn retry_modifier(seconds: i64) -> (r: String)
    ensures
        r@ == retry_modifier_text(seconds as int),
{
    let mut v: Vec<char> = vec!['+'];
    push_decimal(&mut v, seconds);
    let tail = str_chars(" seconds");
    append_chars(&mut v, &tail);
    string_from_chars(&v)
}

} // verus!
