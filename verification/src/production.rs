//! The decisions of producing an accepted candidate: the state path through rendering, staging
//! and publishing, the publish jobs and their keys, which platforms still owe a post, whether a
//! stored candidate is retried, and how a production run ends.
use vstd::prelude::*;
use crate::domain::{spec_can_transition, ClipState};
use crate::pipeline::RunSummary;
use crate::text::{chars_of, extend_str, join, join_chars, string_of, views};

verus! {

/// The state that follows `s` on the way from acceptance to publishing.
pub open spec fn spec_next_production_state(s: ClipState) -> Option<ClipState> {
    match s {
        ClipState::Accepted => Some(ClipState::Rendered),
        ClipState::Rendered => Some(ClipState::Staged),
        ClipState::Staged => Some(ClipState::Publishing),
        _ => None,
    }
}

/// The state a candidate moves to once the step that leaves `s` (rendering, staging or queueing
/// the publish jobs) has succeeded; none outside that path.
pub fn next_production_state(s: ClipState) -> (next: Option<ClipState>)
    ensures
        next == spec_next_production_state(s),
        next matches Some(n) ==> spec_can_transition(s, n),
{
    match s {
        ClipState::Accepted => Some(ClipState::Rendered),
        ClipState::Rendered => Some(ClipState::Staged),
        ClipState::Staged => Some(ClipState::Publishing),
        _ => None,
    }
}

/// The state a publishing candidate ends in: none while a platform job is unfinished, awaiting
/// the creator when a post waits for them, published otherwise.
pub open spec fn spec_finished_state(all_done: bool, awaiting_creator: bool) -> Option<ClipState> {
    if !all_done {
        None
    } else if awaiting_creator {
        Some(ClipState::AwaitingCreator)
    } else {
        Some(ClipState::Published)
    }
}

/// Where a publishing candidate goes once its platform jobs have been tried.
pub fn finished_state(all_done: bool, awaiting_creator: bool) -> (s: Option<ClipState>)
    ensures
        s == spec_finished_state(all_done, awaiting_creator),
        s matches Some(n) ==> spec_can_transition(ClipState::Publishing, n),
{
    if !all_done {
        None
    } else if awaiting_creator {
        Some(ClipState::AwaitingCreator)
    } else {
        Some(ClipState::Published)
    }
}

/// The id of a candidate's publish job on a platform: `platform-candidate`.
pub open spec fn spec_publish_job_id(platform: Seq<char>, candidate_id: Seq<char>) -> Seq<char> {
    platform + seq!['-'] + candidate_id
}

/// The id of a candidate's publish job on a platform.
pub fn publish_job_id(platform: &str, candidate_id: &str) -> (id: String)
    ensures
        id@ == spec_publish_job_id(platform@, candidate_id@),
{
    let mut out = chars_of(platform);
    out.push('-');
    extend_str(&mut out, candidate_id);
    string_of(&out)
}

/// The key a platform deduplicates a candidate's post by: `platform:idempotency_key`.
pub open spec fn spec_publish_key(platform: Seq<char>, idempotency_key: Seq<char>) -> Seq<char> {
    platform + seq![':'] + idempotency_key
}

/// The key a platform deduplicates a candidate's post by, from the candidate's idempotency key.
pub fn publish_key(platform: &str, idempotency_key: &str) -> (key: String)
    ensures
        key@ == spec_publish_key(platform@, idempotency_key@),
{
    let mut out = chars_of(platform);
    out.push(':');
    extend_str(&mut out, idempotency_key);
    string_of(&out)
}

/// The indices, in order, of the platforms whose job is not done.
pub open spec fn pending_indices(done: Seq<bool>) -> Seq<usize>
    decreases done.len(),
{
    if done.len() == 0 {
        Seq::empty()
    } else if done.last() {
        pending_indices(done.drop_last())
    } else {
        pending_indices(done.drop_last()).push((done.len() - 1) as usize)
    }
}

/// The platforms still to publish to: the indices, in order, of those whose job is not done.
pub fn platforms_to_publish(platforms: &[String], done: &[bool]) -> (todo: Vec<usize>)
    requires
        platforms@.len() == done@.len(),
    ensures
        todo@ == pending_indices(done@),
{
    let mut todo: Vec<usize> = Vec::new();
    let mut i: usize = 0;
    while i < done.len()
        invariant
            i <= done@.len(),
            todo@ == pending_indices(done@.subrange(0, i as int)),
        decreases done.len() - i,
    {
        assert(done@.subrange(0, i + 1).drop_last() =~= done@.subrange(0, i as int));
        if !done[i] {
            todo.push(i);
        }
        i = i + 1;
    }
    assert(done@.subrange(0, done@.len() as int) =~= done@);
    todo
}

proof fn lemma_pending_indices(done: Seq<bool>)
    requires
        done.len() <= usize::MAX,
    ensures
        forall|k: int| 0 <= k < pending_indices(done).len() ==> {
            let i = #[trigger] pending_indices(done)[k];
            i < done.len() && !done[i as int]
        },
        forall|i: int| 0 <= i < done.len() && !done[i] ==> exists|k: int|
            0 <= k < pending_indices(done).len() && #[trigger] pending_indices(done)[k] == i,
    decreases done.len(),
{
    if done.len() > 0 {
        let init = done.drop_last();
        lemma_pending_indices(init);
        let p = pending_indices(init);
        let r = pending_indices(done);
        if done.last() {
            assert(r == p);
        } else {
            assert(r == p.push((done.len() - 1) as usize));
        }
        assert forall|k: int| 0 <= k < r.len() implies {
            let i = #[trigger] r[k];
            i < done.len() && !done[i as int]
        } by {
            if k < p.len() {
                assert(r[k] == p[k]);
                assert(init[p[k] as int] == done[p[k] as int]);
            } else {
                assert(!done.last());
                assert(r[k] == done.len() - 1);
            }
        }
        assert forall|i: int| 0 <= i < done.len() && !done[i] implies exists|k: int|
            0 <= k < r.len() && #[trigger] r[k] == i by {
            if i < done.len() - 1 {
                assert(init[i] == done[i]);
                let k = choose|k: int| 0 <= k < p.len() && #[trigger] p[k] == i;
                assert(r[k] == p[k]);
            } else {
                assert(r[r.len() - 1] == i);
            }
        }
    }
}

/// Completed posts are never submitted again: the platforms left to publish to are exactly
/// those whose job is not yet done.
pub proof fn law_completed_posts_are_not_submitted_again(done: Seq<bool>, i: int)
    requires
        0 <= i < done.len(),
        done.len() <= usize::MAX,
    ensures
        done[i] ==> forall|k: int| 0 <= k < pending_indices(done).len() ==> #[trigger] pending_indices(done)[k] != i,
        !done[i] ==> exists|k: int| 0 <= k < pending_indices(done).len() && #[trigger] pending_indices(done)[k] == i,
{
    lemma_pending_indices(done);
}

/// One failed platform as reported: `platform: error`.
pub open spec fn spec_failure_line(platform: Seq<char>, error: Seq<char>) -> Seq<char> {
    platform + seq![':', ' '] + error
}

/// One failed platform as reported.
pub fn failure_line(platform: &str, error: &str) -> (line: Vec<char>)
    ensures
        line@ == spec_failure_line(platform@, error@),
{
    let mut out = chars_of(platform);
    out.push(':');
    out.push(' ');
    extend_str(&mut out, error);
    out
}

/// The report of a production run's failed platforms: none when every attempted post succeeded,
/// otherwise `one or more publishers failed: ` and the failures joined by `; `.
pub open spec fn spec_failure_report(failures: Seq<Seq<char>>) -> Option<Seq<char>> {
    if failures.len() == 0 {
        None
    } else {
        Some("one or more publishers failed: "@ + join(failures, seq![';', ' ']))
    }
}

/// The report of a production run's failed platforms, if any failed.
pub fn failure_report(failures: &Vec<Vec<char>>) -> (report: Option<String>)
    ensures
        report matches Some(r) ==> spec_failure_report(views(failures@)) == Some(r@),
        report is None <==> spec_failure_report(views(failures@)) is None,
{
    if failures.len() == 0 {
        return None;
    }
    let mut out = chars_of("one or more publishers failed: ");
    let sep = vec![';', ' '];
    let joined = join_chars(failures, sep.as_slice());
    extend_chars_of(&mut out, &joined);
    assert(sep@ =~= seq![';', ' ']);
    Some(string_of(&out))
}

fn extend_chars_of(out: &mut Vec<char>, tail: &Vec<char>)
    ensures
        final(out)@ == old(out)@ + tail@,
{
    crate::text::extend_chars(out, tail.as_slice());
}

/// What becomes of a stored candidate whose publishing is unfinished.
#[derive(Debug, Clone, Copy, PartialEq, Eq, Structural)]
pub enum RetryVerdict {
    /// It has been tried more often than allowed and is marked failed.
    Exhausted,
    /// Its critic decision is missing and it is marked failed.
    MissingDecision,
    /// It is rendered and published again, skipping finished platforms.
    Retry,
}

/// The verdict on a stored candidate tried `attempts` times, this attempt included.
pub open spec fn spec_retry_verdict(attempts: u32, max_attempts: u32, has_decision: bool) -> RetryVerdict {
    if attempts > max_attempts {
        RetryVerdict::Exhausted
    } else if !has_decision {
        RetryVerdict::MissingDecision
    } else {
        RetryVerdict::Retry
    }
}

/// Whether a stored candidate is retried: not past the attempt budget and with its critic
/// decision at hand.
pub fn retry_verdict(attempts: u32, max_attempts: u32, has_decision: bool) -> (v: RetryVerdict)
    ensures
        v == spec_retry_verdict(attempts, max_attempts, has_decision),
{
    if attempts > max_attempts {
        RetryVerdict::Exhausted
    } else if !has_decision {
        RetryVerdict::MissingDecision
    } else {
        RetryVerdict::Retry
    }
}

/// The reason recorded when a stored candidate is marked failed instead of retried.
pub open spec fn spec_retry_failure_reason(v: RetryVerdict) -> Option<Seq<char>> {
    match v {
        RetryVerdict::Exhausted => Some("retry budget exhausted"@),
        RetryVerdict::MissingDecision => Some("stored critic decision is missing"@),
        RetryVerdict::Retry => None,
    }
}

impl RetryVerdict {
    /// The reason recorded when the candidate is marked failed; none when it is retried.
    pub fn failure_reason(&self) -> (r: Option<&'static str>)
        ensures
            match r {
                Some(s) => spec_retry_failure_reason(*self) == Some(s@),
                None => spec_retry_failure_reason(*self) is None,
            },
    {
        match self {
            RetryVerdict::Exhausted => Some("retry budget exhausted"),
            RetryVerdict::MissingDecision => Some("stored critic decision is missing"),
            RetryVerdict::Retry => None,
        }
    }
}

/// What happened to a ready candidate during a run.
#[derive(Debug, Clone, Copy, PartialEq, Eq, Structural)]
pub enum ReviewEvent {
    /// It was stored before, so it is skipped.
    AlreadyStored,
    /// It was reviewed and accepted or rejected.
    Reviewed { accepted: bool },
    /// Its production published `posts` posts.
    Published { posts: usize },
    /// Its production failed and will be retried.
    PublishFailed,
}

/// The run summary after `event`.
pub open spec fn spec_record_review(s: RunSummary, event: ReviewEvent) -> RunSummary {
    match event {
        ReviewEvent::AlreadyStored => s,
        ReviewEvent::Reviewed { accepted } => RunSummary {
            candidates_reviewed: (s.candidates_reviewed + 1) as usize,
            candidates_accepted: if accepted { (s.candidates_accepted + 1) as usize } else { s.candidates_accepted },
            candidates_rejected: if accepted { s.candidates_rejected } else { (s.candidates_rejected + 1) as usize },
            ..s
        },
        ReviewEvent::Published { posts } => RunSummary { posts_completed: (s.posts_completed + posts) as usize, ..s },
        ReviewEvent::PublishFailed => RunSummary { publish_failures: (s.publish_failures + 1) as usize, ..s },
    }
}

/// Whether counting `event` keeps every count of `s` within `usize`.
pub open spec fn review_fits(s: RunSummary, event: ReviewEvent) -> bool {
    match event {
        ReviewEvent::AlreadyStored => true,
        ReviewEvent::Reviewed { .. } => s.candidates_reviewed < usize::MAX && s.candidates_accepted < usize::MAX
            && s.candidates_rejected < usize::MAX,
        ReviewEvent::Published { posts } => s.posts_completed + posts <= usize::MAX,
        ReviewEvent::PublishFailed => s.publish_failures < usize::MAX,
    }
}

/// Counts what happened to a ready candidate in the run summary, and says whether it goes on to
/// be rendered and published: exactly when it was reviewed and accepted. A stored candidate is
/// skipped uncounted; a reviewed one counts as reviewed and as accepted or rejected; a production
/// adds its posts, or one publish failure.
pub fn record_review(summary: &mut RunSummary, event: ReviewEvent) -> (render: bool)
    requires
        review_fits(*old(summary), event),
    ensures
        *final(summary) == spec_record_review(*old(summary), event),
        render == (event matches ReviewEvent::Reviewed { accepted } && accepted),
{
    match event {
        ReviewEvent::AlreadyStored => false,
        ReviewEvent::Reviewed { accepted } => {
            summary.candidates_reviewed = summary.candidates_reviewed + 1;
            if accepted {
                summary.candidates_accepted = summary.candidates_accepted + 1;
            } else {
                summary.candidates_rejected = summary.candidates_rejected + 1;
            }
            accepted
        },
        ReviewEvent::Published { posts } => {
            summary.posts_completed = summary.posts_completed + posts;
            false
        },
        ReviewEvent::PublishFailed => {
            summary.publish_failures = summary.publish_failures + 1;
            false
        },
    }
}

/// The run summary after deciding on a stored candidate: a candidate marked failed counts as one
/// publish failure; a retried one is counted once its production ends.
pub open spec fn spec_record_retry(s: RunSummary, v: RetryVerdict) -> RunSummary {
    if v == RetryVerdict::Retry {
        s
    } else {
        RunSummary { publish_failures: (s.publish_failures + 1) as usize, ..s }
    }
}

/// Decides on a stored candidate tried `attempts` times (this attempt included) and counts a
/// candidate marked failed as a publish failure.
pub fn record_retry(summary: &mut RunSummary, attempts: u32, max_attempts: u32, has_decision: bool) -> (v: RetryVerdict)
    requires
        old(summary).publish_failures < usize::MAX,
    ensures
        v == spec_retry_verdict(attempts, max_attempts, has_decision),
        *final(summary) == spec_record_retry(*old(summary), v),
{
    let v = retry_verdict(attempts, max_attempts, has_decision);
    if v != RetryVerdict::Retry {
        summary.publish_failures = summary.publish_failures + 1;
    }
    v
}

/// A stored candidate tried more often than allowed is marked failed with the reason "retry
/// budget exhausted", counted as a publish failure and not published again; one within the
/// budget whose critic decision is stored is retried and counted only by its production.
pub proof fn law_exhausted_candidates_are_failed_not_published(s: RunSummary, attempts: u32, max_attempts: u32, has_decision: bool)
    requires
        s.publish_failures < usize::MAX,
    ensures
        attempts > max_attempts ==> {
            let v = spec_retry_verdict(attempts, max_attempts, has_decision);
            &&& v == RetryVerdict::Exhausted
            &&& spec_retry_failure_reason(v) == Some("retry budget exhausted"@)
            &&& spec_record_retry(s, v).publish_failures == s.publish_failures + 1
        },
        attempts <= max_attempts && has_decision ==> {
            let v = spec_retry_verdict(attempts, max_attempts, has_decision);
            &&& v == RetryVerdict::Retry
            &&& spec_retry_failure_reason(v) is None
            &&& spec_record_retry(s, v) == s
        },
{
}

} // verus!
