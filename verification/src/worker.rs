//! The decisions of the download worker pool: per-job pause/cancel controls,
//! when the next task may start, how one item moves through its attempts,
//! and how yt-dlp's output is read.
use vstd::prelude::*;
use std::collections::HashMap;
use crate::sanitize::{sanitize_component, sanitized};
use crate::status::{MAX_ATTEMPTS, Status, backoff, failure_outcome_spec, status_text};
use crate::text::{
    append_chars, copy_range, decimal, push_decimal, push_decimal_u64, starts_with, starts_with_chars, str_chars,
    string_from_chars, trim_str, trim_ws, is_ws, trim_end_ws,
};

verus! {

/// The controls of one running job.
#[derive(Clone, Copy, Debug, PartialEq, Eq, Structural)]
pub struct JobFlags {
    pub paused: bool,
    pub cancelled: bool,
}

/// The controls of every running job, by job id.
pub struct JobRegistry {
    jobs: HashMap<i64, JobFlags>,
}

impl View for JobRegistry {
    type V = Map<i64, JobFlags>;

    closed spec fn view(&self) -> Map<i64, JobFlags> {
        self.jobs@
    }
}

impl JobRegistry {
    pub fn new() -> (r: JobRegistry)
        ensures
            r@ == Map::<i64, JobFlags>::empty(),
    {
        JobRegistry { jobs: HashMap::new() }
    }

    /// The controls of a job, if it is running.
    pub fn flags(&self, job_id: i64) -> (r: Option<JobFlags>)
        ensures
            r == (if self@.contains_key(job_id) {
                Some(self@[job_id])
            } else {
                None::<JobFlags>
            }),
    {
        broadcast use vstd::std_specs::hash::group_hash_axioms;
        match self.jobs.get(&job_id) {
            Some(f) => Some(*f),
            None => None,
        }
    }

    /// Starts tracking a job with fresh controls (neither paused nor
    /// cancelled), replacing any earlier entry for it.
    pub fn register(&mut self, job_id: i64)
        ensures
            final(self)@ == old(self)@.insert(job_id, JobFlags { paused: false, cancelled: false }),
    {
        broadcast use vstd::std_specs::hash::group_hash_axioms;
        self.jobs.insert(job_id, JobFlags { paused: false, cancelled: false });
    }

    /// Stops tracking a job.
    pub fn remove(&mut self, job_id: i64)
        ensures
            final(self)@ == old(self)@.remove(job_id),
    {
        broadcast use vstd::std_specs::hash::group_hash_axioms;
        self.jobs.remove(&job_id);
    }

    /// Pauses a running job; does nothing for a job that is not running.
    pub fn pause(&mut self, job_id: i64)
        ensures
            final(self)@ == with_paused(old(self)@, job_id, true),
    {
        broadcast use vstd::std_specs::hash::group_hash_axioms;
        if let Some(f) = self.flags(job_id) {
            self.jobs.insert(job_id, JobFlags { paused: true, cancelled: f.cancelled });
        }
    }

    /// Resumes a running job; does nothing for a job that is not running.
    pub fn resume(&mut self, job_id: i64)
        ensures
            final(self)@ == with_paused(old(self)@, job_id, false),
    {
        broadcast use vstd::std_specs::hash::group_hash_axioms;
        if let Some(f) = self.flags(job_id) {
            self.jobs.insert(job_id, JobFlags { paused: false, cancelled: f.cancelled });
        }
    }

    /// Cancels a running job; does nothing for a job that is not running.
    pub fn cancel(&mut self, job_id: i64)
        ensures
            final(self)@ == with_cancelled(old(self)@, job_id),
    {
        broadcast use vstd::std_specs::hash::group_hash_axioms;
        if let Some(f) = self.flags(job_id) {
            self.jobs.insert(job_id, JobFlags { paused: f.paused, cancelled: true });
        }
    }
}

/// The controls after `pause` (`true`) or `resume` (`false`) of `job_id`.
pub open spec fn with_paused(m: Map<i64, JobFlags>, job_id: i64, paused: bool) -> Map<i64, JobFlags> {
    if m.contains_key(job_id) {
        m.insert(job_id, JobFlags { paused, ..m[job_id] })
    } else {
        m
    }
}

/// The controls after `cancel` of `job_id`.
pub open spec fn with_cancelled(m: Map<i64, JobFlags>, job_id: i64) -> Map<i64, JobFlags> {
    if m.contains_key(job_id) {
        m.insert(job_id, JobFlags { cancelled: true, ..m[job_id] })
    } else {
        m
    }
}

/// Pause, resume and cancel only touch the job they name, and only while it
/// runs; resuming undoes a pause; nothing but a fresh registration clears a
/// cancellation.
pub proof fn lemma_job_controls(m: Map<i64, JobFlags>, job_id: i64, other: i64, p: bool)
    ensures
        !m.contains_key(job_id) ==> with_paused(m, job_id, p) == m && with_cancelled(m, job_id)
            == m,
        other != job_id ==> with_paused(m, job_id, p).contains_key(other) == m.contains_key(other)
            && with_cancelled(m, job_id).contains_key(other) == m.contains_key(other),
        other != job_id && m.contains_key(other) ==> with_paused(m, job_id, p)[other] == m[other]
            && with_cancelled(m, job_id)[other] == m[other],
        m.contains_key(job_id) && !m[job_id].paused ==> with_paused(
            with_paused(m, job_id, true),
            job_id,
            false,
        ) == m,
        m.contains_key(job_id) ==> with_paused(m, job_id, p)[job_id].cancelled
            == m[job_id].cancelled,
        m.contains_key(job_id) ==> with_cancelled(with_paused(m, job_id, p), job_id)[job_id].cancelled,
        m.contains_key(job_id) ==> with_paused(with_cancelled(m, job_id), job_id, p)[job_id].cancelled,
{
    if m.contains_key(job_id) && !m[job_id].paused {
        let a = with_paused(with_paused(m, job_id, true), job_id, false);
        assert(a[job_id] == m[job_id]);
        assert(a =~= m);
    }
}

/// What the dispatcher does before handing a job's next task to the pool.
#[derive(Clone, Copy, Debug, PartialEq, Eq, Structural)]
pub enum Dispatch {
    /// The job was cancelled: hand out no more tasks.
    Stop,
    /// The job is paused: check again after a short sleep.
    Wait,
    /// Start the next task.
    Start,
}

pub open spec fn dispatch_spec(f: JobFlags) -> Dispatch {
    if f.cancelled {
        Dispatch::Stop
    } else if f.paused {
        Dispatch::Wait
    } else {
        Dispatch::Start
    }
}

/// Pause takes effect at task boundaries; cancel wins over pause.
pub fn dispatch(f: JobFlags) -> (r: Dispatch)
    ensures
        r == dispatch_spec(f),
{
    if f.cancelled {
        Dispatch::Stop
    } else if f.paused {
        Dispatch::Wait
    } else {
        Dispatch::Start
    }
}

/// The dispatcher's next move for a job whose tasks before `next` (of
/// `total`) have been handed out.
#[derive(Clone, Copy, Debug, PartialEq, Eq, Structural)]
pub enum DispatchAction {
    /// Hand task `task` to the pool.
    Start { task: usize },
    /// The job is paused: check again after a short sleep.
    Wait,
    /// The job was cancelled: mark tasks `from..to` `CANCELLED` and stop.
    Cancel { from: usize, to: usize },
    /// Every task has been handed out.
    Finish,
}

pub open spec fn next_dispatch_spec(next: usize, total: usize, f: JobFlags) -> DispatchAction {
    if next >= total {
        DispatchAction::Finish
    } else {
        match dispatch_spec(f) {
            Dispatch::Stop => DispatchAction::Cancel { from: next, to: total },
            Dispatch::Wait => DispatchAction::Wait,
            Dispatch::Start => DispatchAction::Start { task: next },
        }
    }
}

/// Tasks are handed out in order while the job runs; a cancelled job hands
/// out nothing more and cancels every task not yet handed out.
pub fn next_dispatch(next: usize, total: usize, f: JobFlags) -> (r: DispatchAction)
    requires
        next <= total,
    ensures
        r == next_dispatch_spec(next, total, f),
{
    if next >= total {
        DispatchAction::Finish
    } else {
        match dispatch(f) {
            Dispatch::Stop => DispatchAction::Cancel { from: next, to: total },
            Dispatch::Wait => DispatchAction::Wait,
            Dispatch::Start => DispatchAction::Start { task: next },
        }
    }
}

/// What becomes of the tasks from `next` on when the dispatcher reads the
/// controls `flags`, one reading per move: `true` for a task handed out,
/// `false` for a task cancelled, in task order.
pub open spec fn task_fates(next: nat, total: nat, flags: Seq<JobFlags>) -> Seq<bool>
    decreases flags.len(),
{
    if flags.len() == 0 || next >= total {
        Seq::empty()
    } else {
        match dispatch_spec(flags[0]) {
            Dispatch::Start => seq![true] + task_fates(next + 1, total, flags.drop_first()),
            Dispatch::Wait => task_fates(next, total, flags.drop_first()),
            Dispatch::Stop => Seq::new((total - next) as nat, |i: int| false),
        }
    }
}

/// Once the dispatcher sees its job cancelled, no task stays queued: each
/// task is either handed out or cancelled. No task is handed out after one
/// was cancelled, and nothing is cancelled unless the job was.
pub proof fn lemma_cancel_leaves_nothing_queued(next: nat, total: nat, flags: Seq<JobFlags>)
    requires
        next <= total,
    ensures
        (exists|j: int| 0 <= j < flags.len() && (#[trigger] flags[j]).cancelled) ==> task_fates(
            next,
            total,
            flags,
        ).len() == total - next,
        task_fates(next, total, flags).len() <= total - next,
        forall|i: int, j: int|
            0 <= i < j < task_fates(next, total, flags).len() && #[trigger] task_fates(
                next,
                total,
                flags,
            )[j] ==> #[trigger] task_fates(next, total, flags)[i],
        (forall|j: int| 0 <= j < flags.len() ==> !(#[trigger] flags[j]).cancelled) ==> forall|
            i: int,
        |
            0 <= i < task_fates(next, total, flags).len() ==> #[trigger] task_fates(
                next,
                total,
                flags,
            )[i],
    decreases flags.len(),
{
    if flags.len() == 0 || next >= total {
    } else {
        let rest = flags.drop_first();
        let f = task_fates(next, total, flags);
        match dispatch_spec(flags[0]) {
            Dispatch::Start => {
                lemma_cancel_leaves_nothing_queued(next + 1, total, rest);
                let g = task_fates(next + 1, total, rest);
                assert(f == seq![true] + g);
                if exists|j: int| 0 <= j < flags.len() && (#[trigger] flags[j]).cancelled {
                    let j = choose|j: int| 0 <= j < flags.len() && (#[trigger] flags[j]).cancelled;
                    assert(j > 0);
                    assert(rest[j - 1] == flags[j]);
                }
                assert forall|i: int, j: int| 0 <= i < j < f.len() && #[trigger] f[j] implies #[trigger] f[i] by {
                    if i > 0 {
                        assert(f[i] == g[i - 1] && f[j] == g[j - 1]);
                    }
                }
                if forall|j: int| 0 <= j < flags.len() ==> !(#[trigger] flags[j]).cancelled {
                    assert forall|j: int| 0 <= j < rest.len() implies !(#[trigger] rest[j]).cancelled by {
                        assert(rest[j] == flags[j + 1]);
                    }
                    assert forall|i: int| 0 <= i < f.len() implies #[trigger] f[i] by {
                        if i > 0 {
                            assert(f[i] == g[i - 1]);
                        }
                    }
                }
            },
            Dispatch::Wait => {
                lemma_cancel_leaves_nothing_queued(next, total, rest);
                if exists|j: int| 0 <= j < flags.len() && (#[trigger] flags[j]).cancelled {
                    let j = choose|j: int| 0 <= j < flags.len() && (#[trigger] flags[j]).cancelled;
                    assert(j > 0);
                    assert(rest[j - 1] == flags[j]);
                }
                if forall|j: int| 0 <= j < flags.len() ==> !(#[trigger] flags[j]).cancelled {
                    assert forall|j: int| 0 <= j < rest.len() implies !(#[trigger] rest[j]).cancelled by {
                        assert(rest[j] == flags[j + 1]);
                    }
                }
            },
            Dispatch::Stop => {
                assert(flags[0].cancelled);
            },
        }
    }
}

/// How one run of yt-dlp for an item ended.
pub enum RunResult {
    Completed { file_path: String, file_size: u64 },
    Cancelled,
    Failed { error: String },
}

/// Where an item is in its attempts.
pub enum ItemPhase {
    /// About to check for cancellation and start an attempt.
    Checking,
    /// An attempt is running.
    Downloading,
    /// A failed attempt is being recorded.
    RecordingFailure { error: String },
    /// Nothing more to do for this item.
    Finished,
}

/// What the runner hands back after performing the previous actions.
pub enum ItemEvent {
    /// Whether the job is cancelled.
    Checked { cancelled: bool },
    /// The attempt ended.
    Ran(RunResult),
    /// The status and attempt count the failure was recorded with, or
    /// `None` when recording it failed.
    Recorded(Option<(String, u32)>),
}

/// What the runner is to do next.
pub enum ItemAction {
    /// Move the download and its media item to a status.
    SetStatus(Status),
    /// Report progress; `percent` is 0 or 100 where given.
    Emit { status: Status, percent: Option<u32>, error: Option<String> },
    /// Run yt-dlp for the item.
    RunDownload,
    /// Store the finished file.
    MarkCompleted { file_path: String, file_size: u64 },
    /// Record a failed attempt.
    RecordFailure { message: String },
    /// Wait before the next attempt.
    Sleep { seconds: u64 },
}

pub open spec fn retry_delay(attempts: u32) -> u64 {
    if backoff(attempts as nat) >= 0 {
        backoff(attempts as nat) as u64
    } else {
        0
    }
}

/// One step of an item's attempts.
pub open spec fn item_step_spec(phase: ItemPhase, event: ItemEvent) -> (ItemPhase, Seq<ItemAction>) {
    match (phase, event) {
        (ItemPhase::Checking, ItemEvent::Checked { cancelled }) => {
            if cancelled {
                (ItemPhase::Finished, seq![ItemAction::SetStatus(Status::Cancelled)])
            } else {
                (
                    ItemPhase::Downloading,
                    seq![
                        ItemAction::SetStatus(Status::Downloading),
                        ItemAction::Emit { status: Status::Downloading, percent: Some(0u32), error: None },
                        ItemAction::RunDownload,
                    ],
                )
            }
        },
        (ItemPhase::Downloading, ItemEvent::Ran(r)) => match r {
            RunResult::Completed { file_path, file_size } => (
                ItemPhase::Finished,
                seq![
                    ItemAction::MarkCompleted { file_path, file_size },
                    ItemAction::Emit { status: Status::Completed, percent: Some(100u32), error: None },
                ],
            ),
            RunResult::Cancelled => (
                ItemPhase::Finished,
                seq![
                    ItemAction::SetStatus(Status::Cancelled),
                    ItemAction::Emit { status: Status::Cancelled, percent: None, error: None },
                ],
            ),
            RunResult::Failed { error } => (
                ItemPhase::RecordingFailure { error },
                seq![ItemAction::RecordFailure { message: error }],
            ),
        },
        (ItemPhase::RecordingFailure { error }, ItemEvent::Recorded(rec)) => {
            let retrying = match rec {
                Some((st, _)) => st@ == "RETRYING"@,
                None => false,
            };
            let attempts = match rec {
                Some((_, a)) => a,
                None => 3u32,
            };
            if retrying {
                (
                    ItemPhase::Checking,
                    seq![
                        ItemAction::Emit { status: Status::Retrying, percent: None, error: Some(error) },
                        ItemAction::Sleep { seconds: retry_delay(attempts) },
                    ],
                )
            } else {
                (
                    ItemPhase::Finished,
                    seq![ItemAction::Emit { status: Status::Failed, percent: None, error: Some(error) }],
                )
            }
        },
        (p, _) => (p, Seq::empty()),
    }
}

pub open spec fn step_allowed(event: ItemEvent) -> bool {
    match event {
        ItemEvent::Recorded(Some((st, a))) => st@ == "RETRYING"@ ==> a <= 30,
        _ => true,
    }
}

/// Advances an item: a cancelled job marks it `CANCELLED`; an attempt that
/// completes stores the file; a failed attempt is recorded and retried after
/// the backoff while the recorded status is `RETRYING`, otherwise the item
/// ends `FAILED`.
pub fn item_step(phase: ItemPhase, event: ItemEvent) -> (r: (ItemPhase, Vec<ItemAction>))
    requires
        step_allowed(event),
    ensures
        (r.0, r.1@) == item_step_spec(phase, event),
{
    match (phase, event) {
        (ItemPhase::Checking, ItemEvent::Checked { cancelled }) => {
            if cancelled {
                (ItemPhase::Finished, vec![ItemAction::SetStatus(Status::Cancelled)])
            } else {
                (
                    ItemPhase::Downloading,
                    vec![
                        ItemAction::SetStatus(Status::Downloading),
                        ItemAction::Emit { status: Status::Downloading, percent: Some(0), error: None },
                        ItemAction::RunDownload,
                    ],
                )
            }
        },
        (ItemPhase::Downloading, ItemEvent::Ran(r)) => match r {
            RunResult::Completed { file_path, file_size } => (
                ItemPhase::Finished,
                vec![
                    ItemAction::MarkCompleted { file_path, file_size },
                    ItemAction::Emit { status: Status::Completed, percent: Some(100), error: None },
                ],
            ),
            RunResult::Cancelled => (
                ItemPhase::Finished,
                vec![
                    ItemAction::SetStatus(Status::Cancelled),
                    ItemAction::Emit { status: Status::Cancelled, percent: None, error: None },
                ],
            ),
            RunResult::Failed { error } => {
                let e2 = error.clone();
                (ItemPhase::RecordingFailure { error }, vec![ItemAction::RecordFailure { message: e2 }])
            },
        },
        (ItemPhase::RecordingFailure { error }, ItemEvent::Recorded(rec)) => {
            let (retrying, attempts) = match &rec {
                Some((st, a)) => (crate::text::str_eq(st.as_str(), "RETRYING"), *a),
                None => (false, 3u32),
            };
            if retrying {
                let b = crate::status::backoff_seconds(attempts);
                let secs: u64 = if b >= 0 {
                    b as u64
                } else {
                    0
                };
                (
                    ItemPhase::Checking,
                    vec![
                        ItemAction::Emit { status: Status::Retrying, percent: None, error: Some(error) },
                        ItemAction::Sleep { seconds: secs },
                    ],
                )
            } else {
                (
                    ItemPhase::Finished,
                    vec![ItemAction::Emit { status: Status::Failed, percent: None, error: Some(error) }],
                )
            }
        },
        (p, _) => (p, Vec::new()),
    }
}

/// A failed attempt recorded by the retry policy is retried exactly while
/// fewer than `MAX_ATTEMPTS` attempts have failed, after that attempt's
/// backoff; otherwise the item ends `FAILED`.
pub proof fn lemma_retry_policy(attempts: u32, recorded_status: String, error: String)
    requires
        recorded_status@ == status_text(failure_outcome_spec(attempts).status),
    ensures
        ({
            let (next, actions) = item_step_spec(
                ItemPhase::RecordingFailure { error },
                ItemEvent::Recorded(Some((recorded_status, attempts))),
            );
            &&& (next is Checking) <==> attempts < MAX_ATTEMPTS
            &&& (next is Finished) <==> attempts >= MAX_ATTEMPTS
            &&& attempts < MAX_ATTEMPTS ==> actions[1] == ItemAction::Sleep {
                seconds: backoff(attempts as nat) as u64,
            }
            &&& attempts >= MAX_ATTEMPTS ==> actions == seq![
                ItemAction::Emit { status: Status::Failed, percent: None, error: Some(error) },
            ]
        }),
{
    reveal_strlit("RETRYING");
    reveal_strlit("FAILED");
    if attempts < MAX_ATTEMPTS {
        crate::status::lemma_retries_are_bounded(attempts);
        crate::status::lemma_backoff_grows_fourfold(if attempts == 0 { 1 } else { attempts as nat });
    } else {
        assert("FAILED"@ != "RETRYING"@) by {
            assert("FAILED"@[0] != "RETRYING"@[0]);
        }
    }
}

/// Every step that finishes an item leaves it in a terminal state: stored as
/// completed, or marked cancelled, or reported failed.
pub proof fn lemma_finishing_steps_are_terminal(phase: ItemPhase, event: ItemEvent)
    requires
        !(phase is Finished),
        item_step_spec(phase, event).0 is Finished,
    ensures
        ({
            let actions = item_step_spec(phase, event).1;
            exists|i: int|
                0 <= i < actions.len() && match #[trigger] actions[i] {
                    ItemAction::MarkCompleted { .. } => true,
                    ItemAction::SetStatus(Status::Cancelled) => true,
                    ItemAction::Emit { status: Status::Failed, .. } => true,
                    _ => false,
                }
        }),
{
    let actions = item_step_spec(phase, event).1;
    assert(match actions[0] {
        ItemAction::MarkCompleted { .. } => true,
        ItemAction::SetStatus(Status::Cancelled) => true,
        ItemAction::Emit { status: Status::Failed, .. } => true,
        _ => false,
    });
}

/// A status an item's rows keep once its work is over.
pub open spec fn is_terminal(s: Status) -> bool {
    s == Status::Completed || s == Status::Failed || s == Status::Cancelled
}

/// The status an action leaves in the item's download and media-item rows.
pub open spec fn action_status(st: Status, a: ItemAction) -> Status {
    match a {
        ItemAction::SetStatus(s) => s,
        ItemAction::MarkCompleted { .. } => Status::Completed,
        _ => st,
    }
}

pub open spec fn apply_actions(st: Status, acts: Seq<ItemAction>) -> Status
    decreases acts.len(),
{
    if acts.len() == 0 {
        st
    } else {
        apply_actions(action_status(st, acts[0]), acts.drop_first())
    }
}

/// The rows' status once an event arrives: a recorded failure has already
/// written the status the retry policy gave its attempt count.
pub open spec fn event_status(st: Status, phase: ItemPhase, e: ItemEvent) -> Status {
    match (phase, e) {
        (ItemPhase::RecordingFailure { .. }, ItemEvent::Recorded(Some((_, n)))) => failure_outcome_spec(
            n,
        ).status,
        _ => st,
    }
}

/// An item's phase and rows' status after its runner has handed it `events`.
pub open spec fn item_run(phase: ItemPhase, st: Status, events: Seq<ItemEvent>) -> (ItemPhase, Status)
    decreases events.len(),
{
    if events.len() == 0 {
        (phase, st)
    } else {
        let (next, acts) = item_step_spec(phase, events[0]);
        item_run(next, apply_actions(event_status(st, phase, events[0]), acts), events.drop_first())
    }
}

/// The database is reachable and each failure was recorded by the retry
/// policy (`record_attempt_failure`).
pub open spec fn event_recorded_by_policy(e: ItemEvent) -> bool {
    match e {
        ItemEvent::Recorded(Some((st, n))) => st@ == status_text(failure_outcome_spec(n).status),
        ItemEvent::Recorded(None) => false,
        _ => true,
    }
}

proof fn lemma_step_to_finished(phase: ItemPhase, st: Status, e: ItemEvent)
    requires
        event_recorded_by_policy(e),
        phase is Finished ==> is_terminal(st),
    ensures
        item_step_spec(phase, e).0 is Finished ==> is_terminal(
            apply_actions(event_status(st, phase, e), item_step_spec(phase, e).1),
        ),
{
    reveal_with_fuel(apply_actions, 3);
    let (next, acts) = item_step_spec(phase, e);
    let base = event_status(st, phase, e);
    if next is Finished {
        match (phase, e) {
            (ItemPhase::Checking, ItemEvent::Checked { cancelled }) => {
                assert(apply_actions(base, acts) == Status::Cancelled) by {
                    assert(acts.drop_first().len() == 0);
                }
            },
            (ItemPhase::Downloading, ItemEvent::Ran(r)) => {
                let a1 = action_status(base, acts[0]);
                assert(acts.drop_first().drop_first().len() == 0);
                assert(apply_actions(base, acts) == action_status(a1, acts[1]));
                assert(is_terminal(a1));
            },
            (ItemPhase::RecordingFailure { error }, ItemEvent::Recorded(rec)) => {
                let n = rec.unwrap().1;
                assert(acts.drop_first().len() == 0);
                assert(base == failure_outcome_spec(n).status);
                assert(apply_actions(base, acts) == base);
            },
            (p, _) => {
                assert(acts.len() == 0);
            },
        }
    }
}

/// An item run to its end leaves its rows in a terminal status, whatever
/// the events, as long as the database answers and failures are recorded by
/// the retry policy; a finished item never changes status again.
pub proof fn lemma_item_ends_terminal(phase: ItemPhase, st: Status, events: Seq<ItemEvent>)
    requires
        forall|i: int| 0 <= i < events.len() ==> event_recorded_by_policy(#[trigger] events[i]),
        phase is Finished ==> is_terminal(st),
    ensures
        item_run(phase, st, events).0 is Finished ==> is_terminal(item_run(phase, st, events).1),
    decreases events.len(),
{
    if events.len() > 0 {
        let e = events[0];
        assert(event_recorded_by_policy(events[0]));
        lemma_step_to_finished(phase, st, e);
        let (next, acts) = item_step_spec(phase, e);
        let st2 = apply_actions(event_status(st, phase, e), acts);
        if phase is Finished {
            assert(acts.len() == 0);
        }
        let rest = events.drop_first();
        assert forall|i: int| 0 <= i < rest.len() implies event_recorded_by_policy(#[trigger] rest[i]) by {
            assert(rest[i] == events[i + 1]);
        }
        lemma_item_ends_terminal(next, st2, rest);
    }
}

/// The rows' final status of a task: its item run if it was handed out,
/// `CANCELLED` if the job's cancellation reached it first.
pub open spec fn task_final_status(started: bool, events: Seq<ItemEvent>) -> Status {
    if started {
        item_run(ItemPhase::Checking, Status::Queued, events).1
    } else {
        Status::Cancelled
    }
}

/// When a job's dispatch has stopped (every task handed out, or the rest
/// cancelled) and every item it handed out has run to its end, each task's
/// rows hold one of `COMPLETED`, `FAILED` or `CANCELLED` (given a reachable
/// database and failures recorded by the retry policy).
pub proof fn lemma_job_ends_terminal(total: nat, flags: Seq<JobFlags>, runs: Seq<Seq<ItemEvent>>)
    requires
        task_fates(0, total, flags).len() == total,
        runs.len() == total,
        forall|i: int|
            0 <= i < total && #[trigger] task_fates(0, total, flags)[i] ==> item_run(
                ItemPhase::Checking,
                Status::Queued,
                runs[i],
            ).0 is Finished,
        forall|i: int, j: int|
            0 <= i < total && 0 <= j < runs[i].len() ==> event_recorded_by_policy(
                #[trigger] runs[i][j],
            ),
    ensures
        forall|i: int|
            0 <= i < total ==> is_terminal(
                #[trigger] task_final_status(task_fates(0, total, flags)[i], runs[i]),
            ),
{
    assert forall|i: int| 0 <= i < total implies is_terminal(
        #[trigger] task_final_status(task_fates(0, total, flags)[i], runs[i]),
    ) by {
        if task_fates(0, total, flags)[i] {
            assert forall|j: int| 0 <= j < runs[i].len() implies event_recorded_by_policy(
                #[trigger] runs[i][j],
            ) by {}
            lemma_item_ends_terminal(ItemPhase::Checking, Status::Queued, runs[i]);
        }
    }
}

/// How a line of yt-dlp's standard output is read.
pub enum OutputLine {
    /// A `--progress-template` line: its JSON payload, and whether it
    /// reports post-processing (else downloading).
    Progress { postprocess: bool, json: String },
    /// Anything else: the `--print after_move:...` output, the final path.
    Other,
}

pub open spec fn download_tag() -> Seq<char> {
    "download:"@
}

pub open spec fn postprocess_tag() -> Seq<char> {
    "postprocess:"@
}

/// Split at the first `:`, a line whose prefix is `download` or
/// `postprocess` is progress; its payload follows the colon.
pub open spec fn classify_line_spec(line: Seq<char>) -> (bool, bool, Seq<char>) {
    if starts_with(line, download_tag()) {
        (true, false, line.skip(download_tag().len() as int))
    } else if starts_with(line, postprocess_tag()) {
        (true, true, line.skip(postprocess_tag().len() as int))
    } else {
        (false, false, Seq::empty())
    }
}

pub fn classify_line(line: &str) -> (r: OutputLine)
    ensures
        match r {
            OutputLine::Progress { postprocess, json } => classify_line_spec(line@) == (
                true,
                postprocess,
                json@,
            ),
            OutputLine::Other => !classify_line_spec(line@).0,
        },
{
    let v = str_chars(line);
    let d = str_chars("download:");
    let p = str_chars("postprocess:");
    if starts_with_chars(&v, &d) {
        let rest = copy_range(&v, d.len(), v.len());
        assert(rest@ =~= v@.skip(d.len() as int));
        OutputLine::Progress { postprocess: false, json: string_from_chars(&rest) }
    } else if starts_with_chars(&v, &p) {
        let rest = copy_range(&v, p.len(), v.len());
        assert(rest@ =~= v@.skip(p.len() as int));
        OutputLine::Progress { postprocess: true, json: string_from_chars(&rest) }
    } else {
        OutputLine::Other
    }
}

/// Reads one output line while a download runs: a progress line leaves the
/// final path as it was and is handed back for reporting; any other line is
/// the newest candidate for the final path (the last one printed wins).
pub fn after_output_line(final_path: Option<String>, line: String) -> (r: (Option<String>, OutputLine))
    ensures
        classify_line_spec(line@).0 ==> r.0 == final_path && (r.1 matches OutputLine::Progress {
            postprocess,
            json,
        } && classify_line_spec(line@) == (true, postprocess, json@)),
        !classify_line_spec(line@).0 ==> r.0 == Some(line) && r.1 is Other,
{
    match classify_line(line.as_str()) {
        OutputLine::Progress { postprocess, json } => (
            final_path,
            OutputLine::Progress { postprocess, json },
        ),
        OutputLine::Other => (Some(line), OutputLine::Other),
    }
}

/// The status a progress line reports.
pub fn progress_status(postprocess: bool) -> (r: Status)
    ensures
        r == (if postprocess {
            Status::Processing
        } else {
            Status::Downloading
        }),
{
    if postprocess {
        Status::Processing
    } else {
        Status::Downloading
    }
}

pub open spec fn no_output_path_message() -> Seq<char> {
    "yt-dlp succeeded but produced no output path"@
}

pub open spec fn nonzero_exit_message() -> Seq<char> {
    "yt-dlp exited with a non-zero status"@
}

/// How a finished yt-dlp run is judged: a successful exit needs the printed
/// final path; a failing one reports its standard error, or a fixed message
/// when that is blank.
pub open spec fn run_result_spec(success: bool, final_path: Option<Seq<char>>, stderr: Seq<char>) -> Result<Seq<char>, Seq<char>> {
    if success {
        match final_path {
            Some(p) => Ok(p),
            None => Err(no_output_path_message()),
        }
    } else if trim_ws(stderr).len() == 0 {
        Err(nonzero_exit_message())
    } else {
        Err(stderr)
    }
}

pub fn run_result(success: bool, final_path: Option<String>, stderr_text: String) -> (r: Result<String, String>)
    ensures
        match r {
            Ok(p) => run_result_spec(success, crate::playlist::opt_view(final_path), stderr_text@)
                == Ok::<Seq<char>, Seq<char>>(p@),
            Err(e) => run_result_spec(success, crate::playlist::opt_view(final_path), stderr_text@)
                == Err::<Seq<char>, Seq<char>>(e@),
        },
{
    proof {
        broadcast use vstd::string::group_string_axioms;
    }
    if success {
        match final_path {
            Some(p) => Ok(p),
            None => Err("yt-dlp succeeded but produced no output path".to_string()),
        }
    } else if trim_str(stderr_text.as_str()).len() == 0 {
        Err("yt-dlp exited with a non-zero status".to_string())
    } else {
        Err(stderr_text)
    }
}

pub open spec fn template_suffix() -> Seq<char> {
    " - %(title)s.%(ext)s"@
}

/// yt-dlp's `-o` template for the item at `index`: `{index} - %(title)s.%(ext)s`.
pub fn output_template(index: i64) -> (r: String)
    ensures
        r@ == decimal(index as int) + template_suffix(),
{
    let mut v: Vec<char> = Vec::new();
    push_decimal(&mut v, index);
    append_chars(&mut v, &str_chars(" - %(title)s.%(ext)s"));
    string_from_chars(&v)
}

/// Where a pooled download of a playlist's item is written: the playlist's
/// folder (under the music directory) and the file template inside it.
pub struct OutputLocation {
    /// The sanitized playlist title.
    pub folder: String,
    /// `{index} - %(title)s.%(ext)s`.
    pub file_template: String,
}

/// `Music/{playlist}/{index} - {title}.{ext}`, the folder and file parts.
pub fn output_location(playlist_title: &str, index: i64) -> (r: OutputLocation)
    ensures
        r.folder@ == sanitized(playlist_title@),
        r.file_template@ == decimal(index as int) + template_suffix(),
{
    OutputLocation { folder: sanitize_component(playlist_title), file_template: output_template(index) }
}

/// The same template for an item numbered by an unsigned position.
pub fn output_template_unsigned(index: u64) -> (r: String)
    ensures
        r@ == decimal(index as int) + template_suffix(),
{
    let mut v: Vec<char> = Vec::new();
    push_decimal_u64(&mut v, index);
    append_chars(&mut v, &str_chars(" - %(title)s.%(ext)s"));
    string_from_chars(&v)
}

/// One argument of a yt-dlp command line: fixed text, or a value the caller
/// supplies (paths stay with the caller).
#[derive(Clone, Copy, Debug)]
pub enum CommandArg {
    Text(&'static str),
    /// The directory holding ffmpeg (`--ffmpeg-location`).
    FfmpegDir,
    /// The `-o` output template.
    OutputTemplate,
    /// The media or playlist URL.
    Url,
}

pub enum ArgView {
    Text(Seq<char>),
    FfmpegDir,
    OutputTemplate,
    Url,
}

pub open spec fn arg_view(a: CommandArg) -> ArgView {
    match a {
        CommandArg::Text(t) => ArgView::Text(t@),
        CommandArg::FfmpegDir => ArgView::FfmpegDir,
        CommandArg::OutputTemplate => ArgView::OutputTemplate,
        CommandArg::Url => ArgView::Url,
    }
}

pub open spec fn args_view(v: Seq<CommandArg>) -> Seq<ArgView> {
    v.map_values(|a: CommandArg| arg_view(a))
}

/// Audio extraction to best-quality mp3, with JSON progress lines and the
/// final path printed, one video only.
pub open spec fn job_args_spec() -> Seq<ArgView> {
    seq![
        ArgView::Text("-x"@),
        ArgView::Text("--audio-format"@),
        ArgView::Text("mp3"@),
        ArgView::Text("--audio-quality"@),
        ArgView::Text("0"@),
        ArgView::Text("--ffmpeg-location"@),
        ArgView::FfmpegDir,
        ArgView::Text("--newline"@),
        ArgView::Text("--quiet"@),
        ArgView::Text("--no-warnings"@),
        ArgView::Text("--progress-template"@),
        ArgView::Text("download:%(progress)j"@),
        ArgView::Text("--progress-template"@),
        ArgView::Text("postprocess:%(progress)j"@),
        ArgView::Text("--print"@),
        ArgView::Text("after_move:%(filepath)s"@),
        ArgView::Text("--no-playlist"@),
        ArgView::Text("-o"@),
        ArgView::OutputTemplate,
        ArgView::Url,
    ]
}

/// The yt-dlp command line of a pooled download.
pub fn job_args() -> (r: Vec<CommandArg>)
    ensures
        args_view(r@) == job_args_spec(),
{
    let r = vec![
        CommandArg::Text("-x"),
        CommandArg::Text("--audio-format"),
        CommandArg::Text("mp3"),
        CommandArg::Text("--audio-quality"),
        CommandArg::Text("0"),
        CommandArg::Text("--ffmpeg-location"),
        CommandArg::FfmpegDir,
        CommandArg::Text("--newline"),
        CommandArg::Text("--quiet"),
        CommandArg::Text("--no-warnings"),
        CommandArg::Text("--progress-template"),
        CommandArg::Text("download:%(progress)j"),
        CommandArg::Text("--progress-template"),
        CommandArg::Text("postprocess:%(progress)j"),
        CommandArg::Text("--print"),
        CommandArg::Text("after_move:%(filepath)s"),
        CommandArg::Text("--no-playlist"),
        CommandArg::Text("-o"),
        CommandArg::OutputTemplate,
        CommandArg::Url,
    ];
    assert(args_view(r@) =~= job_args_spec());
    r
}


/// Pausing sets the paused flag and resuming clears it, whatever it was,
/// keeping the cancel flag; cancelling sets the cancel flag and keeps the
/// paused one. The job stays registered.
pub proof fn lemma_controls_set_their_flag(m: Map<i64, JobFlags>, job_id: i64, p: bool)
    requires
        m.contains_key(job_id),
    ensures
        with_paused(m, job_id, p).contains_key(job_id),
        with_paused(m, job_id, p)[job_id] == (JobFlags { paused: p, cancelled: m[job_id].cancelled }),
        with_cancelled(m, job_id).contains_key(job_id),
        with_cancelled(m, job_id)[job_id] == (JobFlags { paused: m[job_id].paused, cancelled: true }),
        with_paused(with_paused(m, job_id, true), job_id, false)[job_id].paused == false,
        with_paused(with_paused(m, job_id, false), job_id, true)[job_id].paused == true,
{
}

/// Tasks go to the pool one after another, in order: while tasks remain, a
/// job neither paused nor cancelled starts the next one, a paused job waits,
/// and a cancelled job cancels exactly the tasks not yet handed out; only
/// when none remain does dispatch finish.
pub proof fn lemma_dispatch_moves(next: usize, total: usize, f: JobFlags)
    requires
        next <= total,
    ensures
        next < total && !f.paused && !f.cancelled ==> next_dispatch_spec(next, total, f)
            == (DispatchAction::Start { task: next }),
        next < total && f.paused && !f.cancelled ==> next_dispatch_spec(next, total, f)
            == DispatchAction::Wait,
        next < total && f.cancelled ==> next_dispatch_spec(next, total, f)
            == (DispatchAction::Cancel { from: next, to: total }),
        next == total ==> next_dispatch_spec(next, total, f) == DispatchAction::Finish,
        next_dispatch_spec(next, total, f) == DispatchAction::Finish <==> next == total,
{
}

/// Before each task the dispatcher stops a cancelled job (paused or not),
/// waits on a paused one, and starts the task of a job that is neither.
pub proof fn lemma_cancel_wins_over_pause(f: JobFlags)
    ensures
        dispatch_spec(f) == Dispatch::Stop <==> f.cancelled,
        dispatch_spec(f) == Dispatch::Wait <==> f.paused && !f.cancelled,
        dispatch_spec(f) == Dispatch::Start <==> !f.paused && !f.cancelled,
{
}

/// A running job that is never paused or cancelled hands every task to the
/// pool, each exactly once, in order.
pub proof fn lemma_running_job_starts_every_task(next: nat, total: nat, flags: Seq<JobFlags>)
    requires
        next <= total,
        flags.len() >= total - next,
        forall|j: int| 0 <= j < flags.len() ==> !(#[trigger] flags[j]).paused && !flags[j].cancelled,
    ensures
        task_fates(next, total, flags) == Seq::new((total - next) as nat, |i: int| true),
    decreases total - next,
{
    if next < total {
        let rest = flags.drop_first();
        assert(!flags[0].paused && !flags[0].cancelled);
        assert forall|j: int| 0 <= j < rest.len() implies !(#[trigger] rest[j]).paused
            && !rest[j].cancelled by {
            assert(rest[j] == flags[j + 1]);
        }
        lemma_running_job_starts_every_task(next + 1, total, rest);
        assert(task_fates(next, total, flags) =~= Seq::new((total - next) as nat, |i: int| true));
    } else {
        assert(task_fates(next, total, flags) =~= Seq::new((total - next) as nat, |i: int| true));
    }
}

/// After a failed attempt is recorded: with status `RETRYING` the item is
/// reported as retrying with the error that failed it, waits the backoff of
/// that attempt and is checked again; with any other recorded status, or
/// none, it is reported failed with that error and finishes.
pub proof fn lemma_recorded_failure_moves(error: String, st: String, attempts: u32)
    ensures
        st@ == "RETRYING"@ ==> item_step_spec(
            (ItemPhase::RecordingFailure { error }),
            ItemEvent::Recorded(Some((st, attempts))),
        ) == (
            ItemPhase::Checking,
            seq![
                (ItemAction::Emit { status: Status::Retrying, percent: None, error: Some(error) }),
                (ItemAction::Sleep { seconds: retry_delay(attempts) }),
            ],
        ),
        st@ != "RETRYING"@ ==> item_step_spec(
            (ItemPhase::RecordingFailure { error }),
            ItemEvent::Recorded(Some((st, attempts))),
        ) == (
            ItemPhase::Finished,
            seq![(ItemAction::Emit { status: Status::Failed, percent: None, error: Some(error) })],
        ),
        item_step_spec((ItemPhase::RecordingFailure { error }), ItemEvent::Recorded(None)) == (
            ItemPhase::Finished,
            seq![(ItemAction::Emit { status: Status::Failed, percent: None, error: Some(error) })],
        ),
        1 <= attempts <= 30 ==> retry_delay(attempts) == backoff(attempts as nat),
{
    if 1 <= attempts <= 30 {
        crate::status::lemma_backoff_fits(attempts as nat);
    }
}

/// The other moves of an item: a cancelled job marks it cancelled; otherwise
/// it is marked and reported downloading at 0% and run; a completed run
/// stores the file and reports 100%; a cancelled run marks and reports it
/// cancelled; a failed run records the failure with its error.
pub proof fn lemma_item_moves(cancelled: bool, file_path: String, file_size: u64, error: String)
    ensures
        item_step_spec(ItemPhase::Checking, (ItemEvent::Checked { cancelled: true })) == (
            ItemPhase::Finished,
            seq![ItemAction::SetStatus(Status::Cancelled)],
        ),
        item_step_spec(ItemPhase::Checking, (ItemEvent::Checked { cancelled: false })) == (
            ItemPhase::Downloading,
            seq![
                ItemAction::SetStatus(Status::Downloading),
                (ItemAction::Emit { status: Status::Downloading, percent: Some(0u32), error: None }),
                ItemAction::RunDownload,
            ],
        ),
        item_step_spec(
            ItemPhase::Downloading,
            ItemEvent::Ran((RunResult::Completed { file_path, file_size })),
        ) == (
            ItemPhase::Finished,
            seq![
                (ItemAction::MarkCompleted { file_path, file_size }),
                (ItemAction::Emit { status: Status::Completed, percent: Some(100u32), error: None }),
            ],
        ),
        item_step_spec(ItemPhase::Downloading, ItemEvent::Ran(RunResult::Cancelled)) == (
            ItemPhase::Finished,
            seq![
                ItemAction::SetStatus(Status::Cancelled),
                (ItemAction::Emit { status: Status::Cancelled, percent: None, error: None }),
            ],
        ),
        item_step_spec(ItemPhase::Downloading, ItemEvent::Ran((RunResult::Failed { error }))) == (
            (ItemPhase::RecordingFailure { error }),
            seq![(ItemAction::RecordFailure { message: error })],
        ),
{
}

/// A line starting `download:` or `postprocess:` is progress carrying the
/// rest of the line; every other line is not.
pub proof fn lemma_line_kinds(rest: Seq<char>, line: Seq<char>)
    ensures
        classify_line_spec("download:"@ + rest) == (true, false, rest),
        classify_line_spec("postprocess:"@ + rest) == (true, true, rest),
        !starts_with(line, "download:"@) && !starts_with(line, "postprocess:"@)
            ==> !classify_line_spec(line).0,
{
    let d = "download:"@ + rest;
    assert(d.take("download:"@.len() as int) =~= "download:"@);
    assert(d.skip("download:"@.len() as int) =~= rest);
    let p = "postprocess:"@ + rest;
    assert(p.take("postprocess:"@.len() as int) =~= "postprocess:"@);
    assert(p.skip("postprocess:"@.len() as int) =~= rest);
    reveal_strlit("download:");
    reveal_strlit("postprocess:");
    assert(p.take("download:"@.len() as int) != "download:"@) by {
        assert(p.take("download:"@.len() as int)[0] == 'p');
    }
}

/// A run that exits successfully yields the printed final path, or the
/// fixed message when none was printed; a failing run yields its standard
/// error, or the fixed message when that is only whitespace.
pub proof fn lemma_run_results(path: Seq<char>, stderr: Seq<char>)
    ensures
        run_result_spec(true, Some(path), stderr) == Ok::<Seq<char>, Seq<char>>(path),
        run_result_spec(true, None, stderr) == Err::<Seq<char>, Seq<char>>(
            "yt-dlp succeeded but produced no output path"@,
        ),
        (exists|i: int| 0 <= i < stderr.len() && !is_ws(#[trigger] stderr[i])) ==> run_result_spec(
            false,
            Some(path),
            stderr,
        ) == Err::<Seq<char>, Seq<char>>(stderr),
        (forall|i: int| 0 <= i < stderr.len() ==> is_ws(#[trigger] stderr[i])) ==> run_result_spec(
            false,
            Some(path),
            stderr,
        ) == Err::<Seq<char>, Seq<char>>("yt-dlp exited with a non-zero status"@),
{
    lemma_trim_empty_iff_blank(stderr);
}

proof fn lemma_trim_empty_iff_blank(s: Seq<char>)
    ensures
        trim_ws(s).len() == 0 <==> forall|i: int| 0 <= i < s.len() ==> is_ws(#[trigger] s[i]),
    decreases s.len(),
{
    if s.len() > 0 && is_ws(s[0]) {
        let t = s.drop_first();
        lemma_trim_empty_iff_blank(t);
        assert(trim_ws(s) == trim_ws(t));
        if forall|i: int| 0 <= i < t.len() ==> is_ws(#[trigger] t[i]) {
            assert forall|i: int| 0 <= i < s.len() implies is_ws(#[trigger] s[i]) by {
                if i > 0 {
                    assert(s[i] == t[i - 1]);
                }
            }
        } else {
            let j = choose|j: int| 0 <= j < t.len() && !is_ws(#[trigger] t[j]);
            assert(s[j + 1] == t[j]);
        }
    } else if s.len() > 0 {
        lemma_trim_end_keeps_first(s);
    }
}

proof fn lemma_trim_end_keeps_first(s: Seq<char>)
    requires
        s.len() > 0,
        !is_ws(s[0]),
    ensures
        trim_end_ws(s).len() > 0,
    decreases s.len(),
{
    if is_ws(s.last()) {
        assert(s.len() > 1);
        let t = s.drop_last();
        assert(t[0] == s[0]);
        lemma_trim_end_keeps_first(t);
    }
}

} // verus!
