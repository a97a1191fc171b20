//! Clip lifecycle, candidates and the editorial records exchanged by pipeline stages.
//!
//! Confidences are fixed-point: millionths of one, so `1_000_000` is certainty. A confidence
//! outside `0..=1_000_000` stands for a value the producer should not have given (negative,
//! above one, or not a finite number).
use vstd::prelude::*;
use crate::text::{chars_eq, chars_of, extend_chars, extend_str, int_text, int_text_i64, string_of};

verus! {

/// All timestamps are milliseconds on the source session's monotonic timeline.
pub type TimestampMs = i64;

/// Certainty on the fixed-point confidence scale.
pub const CONFIDENCE_ONE: i64 = 1_000_000;

/// Shortest clip that may be published, in milliseconds.
pub const MIN_CLIP_MS: i64 = 5_000;

/// Longest clip that may be published, in milliseconds.
pub const MAX_CLIP_MS: i64 = 60_000;

/// Whether a confidence lies in the valid range (zero to one).
pub open spec fn valid_confidence(c: i64) -> bool {
    0 <= c <= CONFIDENCE_ONE
}

/// Whether a duration is publishable: five to sixty seconds.
pub open spec fn publishable_duration(d: int) -> bool {
    MIN_CLIP_MS <= d <= MAX_CLIP_MS
}

/// `a + b` saturated to the `i64` range, as `i64::saturating_add` computes it.
pub open spec fn sat_add(a: int, b: int) -> int {
    if a + b > i64::MAX { i64::MAX as int } else if a + b < i64::MIN { i64::MIN as int } else { a + b }
}

/// `i64::saturating_add`.
pub fn saturating_add_i64(a: i64, b: i64) -> (r: i64)
    ensures
        r == sat_add(a as int, b as int),
{
    let s: i128 = a as i128 + b as i128;
    if s > i64::MAX as i128 {
        i64::MAX
    } else if s < i64::MIN as i128 {
        i64::MIN
    } else {
        s as i64
    }
}

/// `i64::saturating_sub`.
pub fn saturating_sub_i64(a: i64, b: i64) -> (r: i64)
    ensures
        r == sat_add(a as int, -(b as int)),
{
    let s: i128 = a as i128 - b as i128;
    if s > i64::MAX as i128 {
        i64::MAX
    } else if s < i64::MIN as i128 {
        i64::MIN
    } else {
        s as i64
    }
}

/// Lifecycle of a clip candidate.
#[derive(Debug, Clone, Copy, PartialEq, Eq, Structural)]
pub enum ClipState {
    Observing,
    Emerging,
    Maturing,
    Ready,
    Accepted,
    Rejected,
    Rendered,
    Staged,
    Publishing,
    Published,
    AwaitingCreator,
    Failed,
}

/// The lifecycle edges a candidate may follow; any state may fail.
pub open spec fn spec_can_transition(from: ClipState, to: ClipState) -> bool {
    ||| to == ClipState::Failed
    ||| (from == ClipState::Observing && to == ClipState::Emerging)
    ||| (from == ClipState::Emerging && to == ClipState::Maturing)
    ||| (from == ClipState::Maturing && to == ClipState::Ready)
    ||| (from == ClipState::Ready && (to == ClipState::Accepted || to == ClipState::Rejected))
    ||| (from == ClipState::Accepted && to == ClipState::Rendered)
    ||| (from == ClipState::Rendered && to == ClipState::Staged)
    ||| (from == ClipState::Staged && to == ClipState::Publishing)
    ||| (from == ClipState::Publishing && (to == ClipState::Published || to
        == ClipState::AwaitingCreator))
    ||| (from == ClipState::AwaitingCreator && to == ClipState::Published)
}

/// The snake_case name a state is stored and shown under.
pub open spec fn clip_state_name(s: ClipState) -> Seq<char> {
    match s {
        ClipState::Observing => "observing"@,
        ClipState::Emerging => "emerging"@,
        ClipState::Maturing => "maturing"@,
        ClipState::Ready => "ready"@,
        ClipState::Accepted => "accepted"@,
        ClipState::Rejected => "rejected"@,
        ClipState::Rendered => "rendered"@,
        ClipState::Staged => "staged"@,
        ClipState::Publishing => "publishing"@,
        ClipState::Published => "published"@,
        ClipState::AwaitingCreator => "awaiting_creator"@,
        ClipState::Failed => "failed"@,
    }
}

/// Every lifecycle state, in declaration order.
pub open spec fn all_clip_states() -> Seq<ClipState> {
    seq![
        ClipState::Observing,
        ClipState::Emerging,
        ClipState::Maturing,
        ClipState::Ready,
        ClipState::Accepted,
        ClipState::Rejected,
        ClipState::Rendered,
        ClipState::Staged,
        ClipState::Publishing,
        ClipState::Published,
        ClipState::AwaitingCreator,
        ClipState::Failed,
    ]
}

impl ClipState {
    /// Whether the lifecycle allows moving from `self` to `next`.
    pub fn can_transition_to(&self, next: &ClipState) -> (allowed: bool)
        ensures
            allowed == spec_can_transition(*self, *next),
    {
        match (*self, *next) {
            (_, ClipState::Failed) => true,
            (ClipState::Observing, ClipState::Emerging) => true,
            (ClipState::Emerging, ClipState::Maturing) => true,
            (ClipState::Maturing, ClipState::Ready) => true,
            (ClipState::Ready, ClipState::Accepted) => true,
            (ClipState::Ready, ClipState::Rejected) => true,
            (ClipState::Accepted, ClipState::Rendered) => true,
            (ClipState::Rendered, ClipState::Staged) => true,
            (ClipState::Staged, ClipState::Publishing) => true,
            (ClipState::Publishing, ClipState::Published) => true,
            (ClipState::Publishing, ClipState::AwaitingCreator) => true,
            (ClipState::AwaitingCreator, ClipState::Published) => true,
            _ => false,
        }
    }

    /// Whether the state ends the candidate's lifecycle.
    pub fn terminal(&self) -> (t: bool)
        ensures
            t == (*self == ClipState::Rejected || *self == ClipState::Published),
    {
        match self {
            ClipState::Rejected | ClipState::Published => true,
            _ => false,
        }
    }

    /// The snake_case name of the state.
    pub fn name(&self) -> (n: &'static str)
        ensures
            n@ == clip_state_name(*self),
    {
        proof {
            reveal_strlit("observing");
            reveal_strlit("emerging");
            reveal_strlit("maturing");
            reveal_strlit("ready");
            reveal_strlit("accepted");
            reveal_strlit("rejected");
            reveal_strlit("rendered");
            reveal_strlit("staged");
            reveal_strlit("publishing");
            reveal_strlit("published");
            reveal_strlit("awaiting_creator");
            reveal_strlit("failed");
        }
        match self {
            ClipState::Observing => "observing",
            ClipState::Emerging => "emerging",
            ClipState::Maturing => "maturing",
            ClipState::Ready => "ready",
            ClipState::Accepted => "accepted",
            ClipState::Rejected => "rejected",
            ClipState::Rendered => "rendered",
            ClipState::Staged => "staged",
            ClipState::Publishing => "publishing",
            ClipState::Published => "published",
            ClipState::AwaitingCreator => "awaiting_creator",
            ClipState::Failed => "failed",
        }
    }

    /// The state whose name is `value`, or an error naming the unknown value.
    pub fn from_name(value: &str) -> (r: Result<ClipState, String>)
        ensures
            match r {
                Ok(s) => clip_state_name(s) == value@,
                Err(message) => (forall|s: ClipState| clip_state_name(s) != value@)
                    && message@ == "unknown clip state "@ + value@,
            },
    {
        let chars = chars_of(value);
        let mut i: usize = 0;
        let states = [
            ClipState::Observing,
            ClipState::Emerging,
            ClipState::Maturing,
            ClipState::Ready,
            ClipState::Accepted,
            ClipState::Rejected,
            ClipState::Rendered,
            ClipState::Staged,
            ClipState::Publishing,
            ClipState::Published,
            ClipState::AwaitingCreator,
            ClipState::Failed,
        ];
        assert(states@ =~= all_clip_states());
        while i < 12
            invariant
                i <= 12,
                states@ == all_clip_states(),
                chars@ == value@,
                forall|j: int| 0 <= j < i ==> clip_state_name(#[trigger] states@[j]) != value@,
            decreases 12 - i,
        {
            let candidate = states[i];
            let name = chars_of(candidate.name());
            if chars_eq(&name, &chars) {
                return Ok(candidate);
            }
            i = i + 1;
        }
        proof {
            assert forall|s: ClipState| clip_state_name(s) != value@ by {
                let k: int = match s {
                    ClipState::Observing => 0,
                    ClipState::Emerging => 1,
                    ClipState::Maturing => 2,
                    ClipState::Ready => 3,
                    ClipState::Accepted => 4,
                    ClipState::Rejected => 5,
                    ClipState::Rendered => 6,
                    ClipState::Staged => 7,
                    ClipState::Publishing => 8,
                    ClipState::Published => 9,
                    ClipState::AwaitingCreator => 10,
                    ClipState::Failed => 11,
                };
                assert(states@[k] == s);
            }
        }
        let mut message = chars_of("unknown clip state ");
        extend_chars(&mut message, &chars);
        Err(string_of(&message))
    }
}


/// A proposed clip on one session's timeline.
#[derive(Debug)]
pub struct Candidate {
    pub id: String,
    pub session_id: String,
    pub channel_id: String,
    pub source: String,
    pub source_id: String,
    pub start_ms: TimestampMs,
    pub end_ms: TimestampMs,
    pub payoff_ms: Option<TimestampMs>,
    pub transcript: String,
    /// Observer confidence (fixed point); it guides evidence density and cannot accept a clip.
    pub observer_confidence: i64,
    pub state: ClipState,
}

/// The content of a [`Candidate`], strings taken as character sequences.
pub struct CandidateView {
    pub id: Seq<char>,
    pub session_id: Seq<char>,
    pub channel_id: Seq<char>,
    pub source: Seq<char>,
    pub source_id: Seq<char>,
    pub start_ms: i64,
    pub end_ms: i64,
    pub payoff_ms: Option<i64>,
    pub transcript: Seq<char>,
    pub observer_confidence: i64,
    pub state: ClipState,
}

impl View for Candidate {
    type V = CandidateView;

    open spec fn view(&self) -> CandidateView {
        CandidateView {
            id: self.id@,
            session_id: self.session_id@,
            channel_id: self.channel_id@,
            source: self.source@,
            source_id: self.source_id@,
            start_ms: self.start_ms,
            end_ms: self.end_ms,
            payoff_ms: self.payoff_ms,
            transcript: self.transcript@,
            observer_confidence: self.observer_confidence,
            state: self.state,
        }
    }
}

/// Why a candidate is not a valid clip proposal.
#[derive(Debug, Clone, Copy, PartialEq, Eq, Structural)]
pub enum CandidateError {
    /// The candidate does not last five to sixty seconds.
    Duration,
    /// The id, session id or source id is empty.
    EmptyIdentifier,
}

/// The key under which a candidate's publication is deduplicated:
/// `source:source_id:start_ms:end_ms`.
pub open spec fn spec_idempotency_key(c: CandidateView) -> Seq<char> {
    c.source + ":"@ + c.source_id + ":"@ + int_text(c.start_ms as int) + ":"@ + int_text(
        c.end_ms as int,
    )
}

/// What `Candidate::validate` answers for a candidate.
pub open spec fn spec_candidate_check(c: CandidateView) -> Result<(), CandidateError> {
    if !publishable_duration(c.end_ms - c.start_ms) {
        Err(CandidateError::Duration)
    } else if c.id.len() == 0 || c.session_id.len() == 0 || c.source_id.len() == 0 {
        Err(CandidateError::EmptyIdentifier)
    } else {
        Ok(())
    }
}

impl Candidate {
    /// The candidate's length in milliseconds.
    pub fn duration_ms(&self) -> (d: i64)
        requires
            i64::MIN <= self.end_ms - self.start_ms <= i64::MAX,
        ensures
            d == self.end_ms - self.start_ms,
    {
        self.end_ms - self.start_ms
    }

    /// Checks that the candidate lasts five to sixty seconds and names its identifiers.
    pub fn validate(&self) -> (r: Result<(), CandidateError>)
        ensures
            r == spec_candidate_check(self@),
    {
        let duration: i128 = self.end_ms as i128 - self.start_ms as i128;
        if duration < MIN_CLIP_MS as i128 || duration > MAX_CLIP_MS as i128 {
            return Err(CandidateError::Duration);
        }
        if self.id.as_str().is_empty() || self.session_id.as_str().is_empty()
            || self.source_id.as_str().is_empty() {
            return Err(CandidateError::EmptyIdentifier);
        }
        Ok(())
    }

    /// The publication deduplication key, `source:source_id:start_ms:end_ms`.
    pub fn idempotency_key(&self) -> (key: String)
        ensures
            key@ == spec_idempotency_key(self@),
    {
        let mut out = chars_of(self.source.as_str());
        extend_str(&mut out, ":");
        extend_str(&mut out, self.source_id.as_str());
        extend_str(&mut out, ":");
        let start = int_text_i64(self.start_ms);
        extend_chars(&mut out, &start);
        extend_str(&mut out, ":");
        let end = int_text_i64(self.end_ms);
        extend_chars(&mut out, &end);
        string_of(&out)
    }

    /// A field-by-field copy.
    pub fn duplicate(&self) -> (out: Candidate)
        ensures
            out@ == self@,
    {
        Candidate {
            id: self.id.clone(),
            session_id: self.session_id.clone(),
            channel_id: self.channel_id.clone(),
            source: self.source.clone(),
            source_id: self.source_id.clone(),
            start_ms: self.start_ms,
            end_ms: self.end_ms,
            payoff_ms: self.payoff_ms,
            transcript: self.transcript.clone(),
            observer_confidence: self.observer_confidence,
            state: self.state,
        }
    }
}

/// The views of a sequence of candidates.
pub open spec fn candidate_views(v: Seq<Candidate>) -> Seq<CandidateView> {
    Seq::new(v.len(), |i: int| v[i]@)
}

// ---------------------------------------------------------------------------------------------
// Merging overlapping observer proposals.
// ---------------------------------------------------------------------------------------------
/// `c` placed into `s` after every element that starts no later than it, scanning from the
/// back: one step of a stable insertion sort by start time.
pub open spec fn insert_by_start(s: Seq<CandidateView>, c: CandidateView) -> Seq<CandidateView>
    decreases s.len(),
{
    if s.len() == 0 {
        seq![c]
    } else if s.last().start_ms <= c.start_ms {
        s.push(c)
    } else {
        insert_by_start(s.drop_last(), c).push(s.last())
    }
}

/// The candidates stably sorted by start time (equal starts keep their order).
pub open spec fn sort_by_start(s: Seq<CandidateView>) -> Seq<CandidateView>
    decreases s.len(),
{
    if s.len() == 0 {
        Seq::empty()
    } else {
        insert_by_start(sort_by_start(s.drop_last()), s.last())
    }
}

/// The larger of two integers.
pub open spec fn max_i64(a: i64, b: i64) -> i64 {
    if a >= b { a } else { b }
}

/// Whether `c` continues the event of `previous`: same session and source, starting no later
/// than `gap_ms` after `previous` ends.
pub open spec fn same_event(previous: CandidateView, c: CandidateView, gap_ms: i64) -> bool {
    c.session_id == previous.session_id && c.source_id == previous.source_id && c.start_ms
        <= sat_add(previous.end_ms as int, gap_ms as int)
}

/// `previous` extended by `c`: the later end, the higher confidence, and `c`'s payoff if it has
/// one.
pub open spec fn absorb(previous: CandidateView, c: CandidateView) -> CandidateView {
    CandidateView {
        end_ms: max_i64(previous.end_ms, c.end_ms),
        observer_confidence: max_i64(previous.observer_confidence, c.observer_confidence),
        payoff_ms: if c.payoff_ms is Some { c.payoff_ms } else { previous.payoff_ms },
        ..previous
    }
}

/// Whether `c` is absorbed into the last merged candidate: it continues the same event and the
/// merged clip would last at most sixty seconds.
pub open spec fn merges_into(merged: Seq<CandidateView>, c: CandidateView, gap_ms: i64) -> bool {
    merged.len() > 0 && same_event(merged.last(), c, gap_ms) && max_i64(c.end_ms, merged.last().end_ms)
        - merged.last().start_ms <= MAX_CLIP_MS
}

/// One step of merging: absorb `c` into the last merged candidate, or append it.
pub open spec fn merge_step(merged: Seq<CandidateView>, c: CandidateView, gap_ms: i64) -> Seq<
    CandidateView,
> {
    if merges_into(merged, c, gap_ms) {
        merged.update(merged.len() - 1, absorb(merged.last(), c))
    } else {
        merged.push(c)
    }
}

/// Merging a sequence already in the order it is processed.
pub open spec fn merge_sorted(s: Seq<CandidateView>, gap_ms: i64) -> Seq<CandidateView>
    decreases s.len(),
{
    if s.len() == 0 {
        Seq::empty()
    } else {
        merge_step(merge_sorted(s.drop_last(), gap_ms), s.last(), gap_ms)
    }
}

/// The result of `merge_candidates`: proposals sorted stably by start, then each one either
/// absorbed into the previous merged clip or kept.
pub open spec fn spec_merge_candidates(s: Seq<CandidateView>, gap_ms: i64) -> Seq<CandidateView> {
    merge_sorted(sort_by_start(s), gap_ms)
}

proof fn lemma_insert_by_start_at(s: Seq<CandidateView>, c: CandidateView, j: int)
    requires
        0 <= j <= s.len(),
        forall|k: int| j <= k < s.len() ==> s[k].start_ms > c.start_ms,
        j == 0 || s[j - 1].start_ms <= c.start_ms,
    ensures
        insert_by_start(s, c) == s.insert(j, c),
    decreases s.len(),
{
    if s.len() == 0 {
        assert(s.insert(j, c) =~= seq![c]);
    } else if s.last().start_ms <= c.start_ms {
        assert(j == s.len());
        assert(s.insert(j, c) =~= s.push(c));
    } else {
        lemma_insert_by_start_at(s.drop_last(), c, j);
        assert(s.insert(j, c) =~= s.drop_last().insert(j, c).push(s.last()));
    }
}

/// Inserts `c` into `v` after every element that starts no later than it.
fn insert_candidate_by_start(v: &mut Vec<Candidate>, c: Candidate)
    ensures
        candidate_views(final(v)@) == insert_by_start(candidate_views(old(v)@), c@),
{
    let mut j = v.len();
    while j > 0 && v[j - 1].start_ms > c.start_ms
        invariant
            j <= v@.len(),
            v@ == old(v)@,
            forall|k: int| j <= k < v@.len() ==> v@[k].start_ms > c.start_ms,
        decreases j,
    {
        j = j - 1;
    }
    let ghost cv = c@;
    let ghost before = candidate_views(v@);
    v.insert(j, c);
    proof {
        lemma_insert_by_start_at(before, cv, j as int);
        assert(candidate_views(v@) =~= before.insert(j as int, cv));
    }
}

/// Merges overlapping observer proposals of the same event without ever producing a merged clip
/// longer than sixty seconds: proposals are sorted stably by start, and each one that starts
/// within `gap_ms` of the previous merged clip's end (same session and source) is absorbed
/// into it when the result stays within sixty seconds.
pub fn merge_candidates(candidates: Vec<Candidate>, gap_ms: i64) -> (merged: Vec<Candidate>)
    ensures
        candidate_views(merged@) == spec_merge_candidates(candidate_views(candidates@), gap_ms),
{
    let ghost input = candidate_views(candidates@);
    let mut rest = candidates;
    let mut reversed: Vec<Candidate> = Vec::new();
    // Take candidates from the back so that sorting can proceed front to back.
    while rest.len() > 0
        invariant
            candidate_views(rest@) + candidate_views(reversed@).reverse() == input,
        decreases rest.len(),
    {
        let ghost r = rest@;
        let c = rest.pop().unwrap();
        reversed.push(c);
        proof {
            assert(candidate_views(rest@) + candidate_views(reversed@).reverse() =~= input) by {
                assert(candidate_views(reversed@).reverse() =~= seq![c@] + candidate_views(
                    reversed@.drop_last(),
                ).reverse());
                assert(candidate_views(r) =~= candidate_views(rest@).push(c@));
            }
        }
    }
    let mut sorted: Vec<Candidate> = Vec::new();
    let ghost n = input.len();
    assert(candidate_views(reversed@).reverse() =~= input);
    while reversed.len() > 0
        invariant
            candidate_views(reversed@).len() <= n,
            input.len() == n,
            input.subrange(n - reversed@.len(), n as int) == candidate_views(reversed@).reverse(),
            candidate_views(sorted@) == sort_by_start(input.subrange(0, n - reversed@.len())),
        decreases reversed.len(),
    {
        let ghost k = n - reversed@.len();
        let ghost rv = candidate_views(reversed@);
        let c = reversed.pop().unwrap();
        proof {
            assert(rv.reverse()[0] == c@);
            assert(input[k] == c@);
            assert(input.subrange(0, k + 1).drop_last() =~= input.subrange(0, k));
            assert(candidate_views(reversed@) =~= rv.drop_last());
            assert(rv.drop_last().reverse() =~= rv.reverse().subrange(1, rv.len() as int));
            assert(input.subrange(n - reversed@.len(), n as int) =~= input.subrange(k, n as int).subrange(1, rv.len() as int));
            assert(input.subrange(n - reversed@.len(), n as int) =~= candidate_views(
                reversed@,
            ).reverse());
        }
        insert_candidate_by_start(&mut sorted, c);
    }
    assert(input.subrange(0, n as int) =~= input);
    let ghost sorted_view = candidate_views(sorted@);
    let mut merged: Vec<Candidate> = Vec::new();
    let mut pending: Vec<Candidate> = Vec::new();
    while sorted.len() > 0
        invariant
            candidate_views(sorted@) + candidate_views(pending@).reverse() == sorted_view,
        decreases sorted.len(),
    {
        let ghost r = sorted@;
        let c = sorted.pop().unwrap();
        pending.push(c);
        proof {
            assert(candidate_views(sorted@) + candidate_views(pending@).reverse() =~= sorted_view)
                by {
                assert(candidate_views(pending@).reverse() =~= seq![c@] + candidate_views(
                    pending@.drop_last(),
                ).reverse());
                assert(candidate_views(r) =~= candidate_views(sorted@).push(c@));
            }
        }
    }
    let ghost m = sorted_view.len();
    assert(candidate_views(pending@).reverse() =~= sorted_view);
    while pending.len() > 0
        invariant
            candidate_views(pending@).len() <= m,
            sorted_view.len() == m,
            sorted_view.subrange(m - pending@.len(), m as int) == candidate_views(pending@).reverse(),
            candidate_views(merged@) == merge_sorted(sorted_view.subrange(0, m - pending@.len()), gap_ms),
        decreases pending.len(),
    {
        let ghost k = m - pending@.len();
        let ghost pv = candidate_views(pending@);
        let ghost before = candidate_views(merged@);
        let c = pending.pop().unwrap();
        proof {
            assert(pv.reverse()[0] == c@);
            assert(sorted_view[k] == c@);
            assert(sorted_view.subrange(0, k + 1).drop_last() =~= sorted_view.subrange(0, k));
            assert(candidate_views(pending@) =~= pv.drop_last());
            assert(pv.drop_last().reverse() =~= pv.reverse().subrange(1, pv.len() as int));
            assert(sorted_view.subrange(m - pending@.len(), m as int) =~= sorted_view.subrange(k, m as int).subrange(1, pv.len() as int));
            assert(sorted_view.subrange(m - pending@.len(), m as int) =~= candidate_views(
                pending@,
            ).reverse());
        }
        let n_merged = merged.len();
        let mut absorbed = false;
        if n_merged > 0 {
            let previous = &merged[n_merged - 1];
            let same = previous.session_id == c.session_id && previous.source_id == c.source_id
                && c.start_ms <= saturating_add_i64(previous.end_ms, gap_ms);
            let later_end = if c.end_ms >= previous.end_ms { c.end_ms } else { previous.end_ms };
            let merged_duration: i128 = later_end as i128 - previous.start_ms as i128;
            if same && merged_duration <= MAX_CLIP_MS as i128 {
                absorbed = true;
            }
        }
        if absorbed {
            let mut previous = merged.pop().unwrap();
            if c.end_ms > previous.end_ms {
                previous.end_ms = c.end_ms;
            }
            if c.observer_confidence > previous.observer_confidence {
                previous.observer_confidence = c.observer_confidence;
            }
            if c.payoff_ms.is_some() {
                previous.payoff_ms = c.payoff_ms;
            }
            merged.push(previous);
            proof {
                assert(candidate_views(merged@) =~= merge_step(before, c@, gap_ms));
            }
        } else {
            let ghost cv = c@;
            merged.push(c);
            proof {
                assert(candidate_views(merged@) =~= merge_step(before, cv, gap_ms));
            }
        }
    }
    assert(sorted_view.subrange(0, m as int) =~= sorted_view);
    merged
}


// ---------------------------------------------------------------------------------------------
// Laws.
// ---------------------------------------------------------------------------------------------
/// The editorial gate cannot be skipped: a candidate becomes accepted or rejected only from the
/// ready state.
pub proof fn law_acceptance_only_from_ready(from: ClipState)
    ensures
        spec_can_transition(from, ClipState::Accepted) ==> from == ClipState::Ready,
        spec_can_transition(from, ClipState::Rejected) ==> from == ClipState::Ready,
{
}

/// The states a candidate reaches only once the editorial gate accepted it.
pub open spec fn past_the_gate(s: ClipState) -> bool {
    s == ClipState::Accepted || s == ClipState::Rendered || s == ClipState::Staged
        || s == ClipState::Publishing || s == ClipState::AwaitingCreator || s == ClipState::Published
}

/// Whether every step of `path` is an allowed lifecycle transition.
pub open spec fn lifecycle_path(path: Seq<ClipState>) -> bool {
    forall|i: int| 0 <= i < path.len() - 1 ==> spec_can_transition(#[trigger] path[i], path[i + 1])
}

proof fn lemma_gate_entered_through_acceptance(path: Seq<ClipState>)
    requires
        path.len() > 0,
        lifecycle_path(path),
        !past_the_gate(path[0]),
        past_the_gate(path.last()),
    ensures
        path.contains(ClipState::Accepted),
    decreases path.len(),
{
    let n = path.len();
    if past_the_gate(path[n - 2]) {
        let shorter = path.drop_last();
        assert forall|i: int| 0 <= i < shorter.len() - 1 implies spec_can_transition(#[trigger] shorter[i], shorter[i + 1]) by {
            assert(spec_can_transition(path[i], path[i + 1]));
        }
        lemma_gate_entered_through_acceptance(shorter);
        let k = choose|k: int| 0 <= k < shorter.len() && shorter[k] == ClipState::Accepted;
        assert(path[k] == ClipState::Accepted);
    } else {
        assert(spec_can_transition(path[n - 2], path[n - 1]));
        assert(path[n - 1] == ClipState::Accepted);
    }
}

/// No candidate is published, or even rendered, without the editorial gate's acceptance.
pub proof fn law_nothing_passes_the_gate_unaccepted(path: Seq<ClipState>)
    requires
        path.len() > 0,
        lifecycle_path(path),
        !past_the_gate(path[0]),
        past_the_gate(path.last()),
    ensures
        path.contains(ClipState::Accepted),
{
    lemma_gate_entered_through_acceptance(path);
}

/// Whether the candidates' starts never decrease.
pub open spec fn starts_sorted(s: Seq<CandidateView>) -> bool {
    forall|i: int, j: int| 0 <= i <= j < s.len() ==> s[i].start_ms <= s[j].start_ms
}

proof fn lemma_insert_by_start_props(s: Seq<CandidateView>, c: CandidateView)
    requires
        starts_sorted(s),
    ensures
        insert_by_start(s, c).len() == s.len() + 1,
        starts_sorted(insert_by_start(s, c)),
        forall|i: int| 0 <= i < insert_by_start(s, c).len() ==> (#[trigger] insert_by_start(s, c)[i] == c
            || s.contains(insert_by_start(s, c)[i])),
    decreases s.len(),
{
    if s.len() > 0 && s.last().start_ms > c.start_ms {
        lemma_insert_by_start_props(s.drop_last(), c);
        let r = insert_by_start(s, c);
        let t = insert_by_start(s.drop_last(), c);
        assert forall|i: int| 0 <= i < r.len() implies (#[trigger] r[i] == c || s.contains(r[i])) by {
            if i < t.len() {
                if t[i] != c {
                    let k = choose|k: int| 0 <= k < s.drop_last().len() && s.drop_last()[k] == t[i];
                    assert(s[k] == t[i]);
                }
            } else {
                assert(r[i] == s[s.len() - 1]);
            }
        }
        assert forall|i: int, j: int| 0 <= i <= j < r.len() implies r[i].start_ms <= r[j].start_ms by {
            if j == r.len() - 1 && i < j {
                if t[i] != c {
                    let k = choose|k: int| 0 <= k < s.drop_last().len() && s.drop_last()[k] == t[i];
                    assert(s[k] == t[i]);
                }
            }
        }
    } else if s.len() > 0 {
        let r = insert_by_start(s, c);
        assert forall|i: int| 0 <= i < r.len() implies (#[trigger] r[i] == c || s.contains(r[i])) by {
            if i < s.len() {
                assert(r[i] == s[i]);
            }
        }
    }
}

/// Sorting by start keeps the number of candidates and orders them by start.
pub proof fn law_sort_by_start_orders(s: Seq<CandidateView>)
    ensures
        sort_by_start(s).len() == s.len(),
        starts_sorted(sort_by_start(s)),
        forall|i: int| 0 <= i < sort_by_start(s).len() ==> s.contains(#[trigger] sort_by_start(s)[i]),
    decreases s.len(),
{
    if s.len() > 0 {
        law_sort_by_start_orders(s.drop_last());
        lemma_insert_by_start_props(sort_by_start(s.drop_last()), s.last());
        let r = sort_by_start(s);
        assert forall|i: int| 0 <= i < r.len() implies s.contains(#[trigger] r[i]) by {
            if r[i] != s.last() {
                let t = sort_by_start(s.drop_last());
                let k = choose|k: int| 0 <= k < t.len() && t[k] == r[i];
                assert(s.drop_last().contains(t[k]));
                let q = choose|q: int| 0 <= q < s.drop_last().len() && s.drop_last()[q] == t[k];
                assert(s[q] == r[i]);
            } else {
                assert(s[s.len() - 1] == r[i]);
            }
        }
    }
}

/// What holds of every candidate that merging may see or produce, given bounds on the inputs.
pub open spec fn within_sixty_seconds(c: CandidateView) -> bool {
    c.start_ms <= c.end_ms && c.end_ms - c.start_ms <= MAX_CLIP_MS
}

proof fn lemma_merge_sorted_props(s: Seq<CandidateView>, gap_ms: i64)
    requires
        starts_sorted(s),
        forall|i: int| 0 <= i < s.len() ==> within_sixty_seconds(#[trigger] s[i]),
    ensures
        merge_sorted(s, gap_ms).len() <= s.len(),
        s.len() > 0 ==> merge_sorted(s, gap_ms).len() >= 1,
        starts_sorted(merge_sorted(s, gap_ms)),
        forall|i: int| 0 <= i < merge_sorted(s, gap_ms).len() ==> within_sixty_seconds(
            #[trigger] merge_sorted(s, gap_ms)[i],
        ),
        forall|i: int| 0 <= i < merge_sorted(s, gap_ms).len() ==> exists|k: int| 0 <= k < s.len()
            && s[k].start_ms == (#[trigger] merge_sorted(s, gap_ms)[i]).start_ms,
    decreases s.len(),
{
    if s.len() > 0 {
        let init = s.drop_last();
        assert(starts_sorted(init));
        assert forall|i: int| 0 <= i < init.len() implies within_sixty_seconds(#[trigger] init[i]) by {
            assert(init[i] == s[i]);
        }
        lemma_merge_sorted_props(init, gap_ms);
        let m = merge_sorted(init, gap_ms);
        let c = s.last();
        let r = merge_sorted(s, gap_ms);
        assert(within_sixty_seconds(s[s.len() - 1]));
        assert forall|i: int| 0 <= i < r.len() implies exists|k: int| 0 <= k < s.len()
            && s[k].start_ms == (#[trigger] r[i]).start_ms by {
            if i < m.len() {
                let k = choose|k: int| 0 <= k < init.len() && init[k].start_ms == m[i].start_ms;
                assert(s[k] == init[k]);
            } else {
                assert(s[s.len() - 1].start_ms == r[i].start_ms);
            }
        }
        if m.len() > 0 {
            let k = choose|k: int| 0 <= k < init.len() && init[k].start_ms == m[m.len() - 1].start_ms;
            assert(s[k].start_ms <= s[s.len() - 1].start_ms);
        }
    }
}

/// Merging never yields more clips than it was given, keeps clips ordered by start, starts
/// each clip where some proposal starts, and never yields a clip longer than sixty seconds
/// when no proposal was.
pub proof fn law_merge_candidates_bounds(s: Seq<CandidateView>, gap_ms: i64)
    requires
        forall|i: int| 0 <= i < s.len() ==> within_sixty_seconds(#[trigger] s[i]),
    ensures
        spec_merge_candidates(s, gap_ms).len() <= s.len(),
        s.len() > 0 ==> spec_merge_candidates(s, gap_ms).len() >= 1,
        starts_sorted(spec_merge_candidates(s, gap_ms)),
        forall|i: int| 0 <= i < spec_merge_candidates(s, gap_ms).len() ==> within_sixty_seconds(
            #[trigger] spec_merge_candidates(s, gap_ms)[i],
        ),
        forall|i: int| 0 <= i < spec_merge_candidates(s, gap_ms).len() ==> exists|k: int| 0 <= k < s.len()
            && s[k].start_ms == (#[trigger] spec_merge_candidates(s, gap_ms)[i]).start_ms,
{
    law_sort_by_start_orders(s);
    let t = sort_by_start(s);
    assert forall|i: int| 0 <= i < t.len() implies within_sixty_seconds(#[trigger] t[i]) by {
        let k = choose|k: int| 0 <= k < s.len() && s[k] == t[i];
    }
    lemma_merge_sorted_props(t, gap_ms);
    let r = spec_merge_candidates(s, gap_ms);
    assert forall|i: int| 0 <= i < r.len() implies exists|k: int| 0 <= k < s.len()
        && s[k].start_ms == (#[trigger] r[i]).start_ms by {
        let k = choose|k: int| 0 <= k < t.len() && t[k].start_ms == r[i].start_ms;
        let q = choose|q: int| 0 <= q < s.len() && s[q] == t[k];
    }
}


// ---------------------------------------------------------------------------------------------
// Evidence and editorial records.
// ---------------------------------------------------------------------------------------------
/// A transcribed stretch of speech.
#[derive(Debug)]
pub struct TranscriptSegment {
    pub session_id: String,
    pub start_ms: TimestampMs,
    pub end_ms: TimestampMs,
    pub text: String,
    /// Transcription confidence (fixed point), when the transcriber reports one.
    pub confidence: Option<i64>,
    /// Probability (fixed point) that the stretch holds no speech, when reported.
    pub no_speech_probability: Option<i64>,
    pub is_final: bool,
}

/// The content of a [`TranscriptSegment`].
pub struct TranscriptSegmentView {
    pub session_id: Seq<char>,
    pub start_ms: i64,
    pub end_ms: i64,
    pub text: Seq<char>,
    pub confidence: Option<i64>,
    pub no_speech_probability: Option<i64>,
    pub is_final: bool,
}

impl View for TranscriptSegment {
    type V = TranscriptSegmentView;

    open spec fn view(&self) -> TranscriptSegmentView {
        TranscriptSegmentView {
            session_id: self.session_id@,
            start_ms: self.start_ms,
            end_ms: self.end_ms,
            text: self.text@,
            confidence: self.confidence,
            no_speech_probability: self.no_speech_probability,
            is_final: self.is_final,
        }
    }
}

impl TranscriptSegment {
    /// A field-by-field copy.
    pub fn duplicate(&self) -> (out: TranscriptSegment)
        ensures
            out@ == self@,
    {
        TranscriptSegment {
            session_id: self.session_id.clone(),
            start_ms: self.start_ms,
            end_ms: self.end_ms,
            text: self.text.clone(),
            confidence: self.confidence,
            no_speech_probability: self.no_speech_probability,
            is_final: self.is_final,
        }
    }
}

/// The views of a sequence of transcript segments.
pub open spec fn segment_views(v: Seq<TranscriptSegment>) -> Seq<TranscriptSegmentView> {
    Seq::new(v.len(), |i: int| v[i]@)
}

/// A chat message on the session timeline; the author is kept only as a hash.
#[derive(Debug)]
pub struct ChatEvent {
    pub session_id: String,
    pub at_ms: TimestampMs,
    pub author_hash: Option<String>,
    pub text: String,
}

/// The content of a [`ChatEvent`].
pub struct ChatEventView {
    pub session_id: Seq<char>,
    pub at_ms: i64,
    pub author_hash: Option<Seq<char>>,
    pub text: Seq<char>,
}

impl View for ChatEvent {
    type V = ChatEventView;

    open spec fn view(&self) -> ChatEventView {
        ChatEventView { session_id: self.session_id@, at_ms: self.at_ms, author_hash: opt_view(self.author_hash), text: self.text@ }
    }
}

impl ChatEvent {
    /// A field-by-field copy.
    pub fn duplicate(&self) -> (out: ChatEvent)
        ensures
            out@ == self@,
    {
        ChatEvent {
            session_id: self.session_id.clone(),
            at_ms: self.at_ms,
            author_hash: copy_opt_string(&self.author_hash),
            text: self.text.clone(),
        }
    }
}

/// The views of a sequence of chat events.
pub open spec fn chat_views(v: Seq<ChatEvent>) -> Seq<ChatEventView> {
    Seq::new(v.len(), |i: int| v[i]@)
}

/// A sampled video frame.
#[derive(Debug)]
pub struct VisualSample {
    pub at_ms: TimestampMs,
    pub path: String,
    pub region: String,
    pub reason: String,
}

/// The content of a [`VisualSample`].
pub struct VisualSampleView {
    pub at_ms: i64,
    pub path: Seq<char>,
    pub region: Seq<char>,
    pub reason: Seq<char>,
}

impl View for VisualSample {
    type V = VisualSampleView;

    open spec fn view(&self) -> VisualSampleView {
        VisualSampleView {
            at_ms: self.at_ms,
            path: self.path@,
            region: self.region@,
            reason: self.reason@,
        }
    }
}

impl VisualSample {
    /// A field-by-field copy.
    pub fn duplicate(&self) -> (out: VisualSample)
        ensures
            out@ == self@,
    {
        VisualSample { at_ms: self.at_ms, path: self.path.clone(), region: self.region.clone(), reason: self.reason.clone() }
    }
}

/// The views of a sequence of visual samples.
pub open spec fn visual_views(v: Seq<VisualSample>) -> Seq<VisualSampleView> {
    Seq::new(v.len(), |i: int| v[i]@)
}

/// An audio model's reading of a candidate.
#[derive(Debug)]
pub struct AudioAnnotation {
    pub emotional_arc: String,
    pub nonverbal_events: Vec<String>,
    pub hook_ms: Option<TimestampMs>,
    pub payoff_ms: Option<TimestampMs>,
    /// Fixed-point confidence.
    pub confidence: i64,
}

/// The content of an [`AudioAnnotation`].
pub struct AudioView {
    pub emotional_arc: Seq<char>,
    pub nonverbal_events: Seq<Seq<char>>,
    pub hook_ms: Option<i64>,
    pub payoff_ms: Option<i64>,
    pub confidence: i64,
}

impl View for AudioAnnotation {
    type V = AudioView;

    open spec fn view(&self) -> AudioView {
        AudioView {
            emotional_arc: self.emotional_arc@,
            nonverbal_events: Seq::new(self.nonverbal_events@.len(), |i: int| self.nonverbal_events@[i]@),
            hook_ms: self.hook_ms,
            payoff_ms: self.payoff_ms,
            confidence: self.confidence,
        }
    }
}

/// The stages of editorial review.
#[derive(Debug, Clone, Copy, PartialEq, Eq, Structural)]
pub enum EditorialStage {
    Observer,
    Director,
    Editor,
    Critic,
}

/// The snake_case name of a stage.
pub open spec fn stage_name(s: EditorialStage) -> Seq<char> {
    match s {
        EditorialStage::Observer => "observer"@,
        EditorialStage::Director => "director"@,
        EditorialStage::Editor => "editor"@,
        EditorialStage::Critic => "critic"@,
    }
}

impl EditorialStage {
    /// The stage's name.
    pub fn name(&self) -> (n: &'static str)
        ensures
            n@ == stage_name(*self),
    {
        proof {
            reveal_strlit("observer");
            reveal_strlit("director");
            reveal_strlit("editor");
            reveal_strlit("critic");
        }
        match self {
            EditorialStage::Observer => "observer",
            EditorialStage::Director => "director",
            EditorialStage::Editor => "editor",
            EditorialStage::Critic => "critic",
        }
    }
}

/// An alternative cut proposed alongside a decision.
#[derive(Debug)]
pub struct CutVariant {
    pub start_ms: TimestampMs,
    pub end_ms: TimestampMs,
    pub rationale: String,
}

/// One stage's editorial decision.
#[derive(Debug)]
pub struct EditorialDecision {
    pub stage: EditorialStage,
    pub accept: bool,
    /// Fixed-point confidence.
    pub confidence: i64,
    pub rationale: String,
    pub title: String,
    pub start_ms: TimestampMs,
    pub end_ms: TimestampMs,
    pub hook_text: Option<String>,
    pub layout: Option<String>,
    pub alternatives: Vec<CutVariant>,
}

/// The content of an alternative cut.
pub struct CutView {
    pub start_ms: i64,
    pub end_ms: i64,
    pub rationale: Seq<char>,
}

impl View for CutVariant {
    type V = CutView;

    open spec fn view(&self) -> CutView {
        CutView { start_ms: self.start_ms, end_ms: self.end_ms, rationale: self.rationale@ }
    }
}

impl CutVariant {
    /// A field-by-field copy.
    pub fn duplicate(&self) -> (out: CutVariant)
        ensures
            out@ == self@,
    {
        CutVariant { start_ms: self.start_ms, end_ms: self.end_ms, rationale: self.rationale.clone() }
    }
}

/// The views of a sequence of cuts.
pub open spec fn cut_views(v: Seq<CutVariant>) -> Seq<CutView> {
    Seq::new(v.len(), |i: int| v[i]@)
}

/// A copy of an optional string.
pub fn copy_opt_string(s: &Option<String>) -> (out: Option<String>)
    ensures
        opt_view(out) == opt_view(*s),
{
    match s {
        Some(t) => Some(t.clone()),
        None => None,
    }
}

/// The content of an [`EditorialDecision`] that the rules read.
pub struct DecisionView {
    pub stage: EditorialStage,
    pub accept: bool,
    pub confidence: i64,
    pub rationale: Seq<char>,
    pub title: Seq<char>,
    pub start_ms: i64,
    pub end_ms: i64,
    pub hook_text: Option<Seq<char>>,
    pub layout: Option<Seq<char>>,
    pub alternatives: Seq<CutView>,
}

/// An optional string taken as an optional character sequence.
pub open spec fn opt_view(s: Option<String>) -> Option<Seq<char>> {
    match s {
        Some(t) => Some(t@),
        None => None,
    }
}

impl View for EditorialDecision {
    type V = DecisionView;

    open spec fn view(&self) -> DecisionView {
        DecisionView {
            stage: self.stage,
            accept: self.accept,
            confidence: self.confidence,
            rationale: self.rationale@,
            title: self.title@,
            start_ms: self.start_ms,
            end_ms: self.end_ms,
            hook_text: opt_view(self.hook_text),
            layout: opt_view(self.layout),
            alternatives: cut_views(self.alternatives@),
        }
    }
}

impl EditorialDecision {
    /// A field-by-field copy.
    pub fn duplicate(&self) -> (out: EditorialDecision)
        ensures
            out@ == self@,
    {
        let mut alternatives: Vec<CutVariant> = Vec::new();
        let mut i: usize = 0;
        while i < self.alternatives.len()
            invariant
                i <= self.alternatives@.len(),
                cut_views(alternatives@) == cut_views(self.alternatives@).subrange(0, i as int),
            decreases self.alternatives.len() - i,
        {
            let ghost before = cut_views(alternatives@);
            let c = self.alternatives[i].duplicate();
            alternatives.push(c);
            assert(cut_views(alternatives@) =~= before.push(c@));
            assert(cut_views(self.alternatives@).subrange(0, i + 1) =~= cut_views(self.alternatives@).subrange(0, i as int).push(self.alternatives@[i as int]@));
            i = i + 1;
        }
        assert(cut_views(self.alternatives@).subrange(0, self.alternatives@.len() as int) =~= cut_views(self.alternatives@));
        EditorialDecision {
            stage: self.stage,
            accept: self.accept,
            confidence: self.confidence,
            rationale: self.rationale.clone(),
            title: self.title.clone(),
            start_ms: self.start_ms,
            end_ms: self.end_ms,
            hook_text: copy_opt_string(&self.hook_text),
            layout: copy_opt_string(&self.layout),
            alternatives,
        }
    }
}

/// A caption shown from `start_ms` to `end_ms`, relative to the clip start.
#[derive(Debug)]
pub struct CaptionCue {
    pub start_ms: TimestampMs,
    pub end_ms: TimestampMs,
    pub text: String,
}

/// The content of a [`CaptionCue`].
pub struct CaptionCueView {
    pub start_ms: i64,
    pub end_ms: i64,
    pub text: Seq<char>,
}

impl View for CaptionCue {
    type V = CaptionCueView;

    open spec fn view(&self) -> CaptionCueView {
        CaptionCueView { start_ms: self.start_ms, end_ms: self.end_ms, text: self.text@ }
    }
}

/// The views of a sequence of cues.
pub open spec fn cue_views(v: Seq<CaptionCue>) -> Seq<CaptionCueView> {
    Seq::new(v.len(), |i: int| v[i]@)
}

/// Everything a renderer needs to produce one vertical clip.
#[derive(Debug)]
pub struct EditManifest {
    pub version: u8,
    pub candidate_id: String,
    pub input_path: String,
    pub output_path: String,
    pub source_start_ms: TimestampMs,
    pub source_end_ms: TimestampMs,
    pub width: u32,
    pub height: u32,
    pub fps: u32,
    pub layout: String,
    pub hook_text: Option<String>,
    pub captions: Vec<CaptionCue>,
}

/// The content of an [`EditManifest`].
pub struct EditManifestView {
    pub version: u8,
    pub candidate_id: Seq<char>,
    pub input_path: Seq<char>,
    pub output_path: Seq<char>,
    pub source_start_ms: i64,
    pub source_end_ms: i64,
    pub width: u32,
    pub height: u32,
    pub fps: u32,
    pub layout: Seq<char>,
    pub hook_text: Option<Seq<char>>,
    pub captions: Seq<CaptionCueView>,
}

impl View for EditManifest {
    type V = EditManifestView;

    open spec fn view(&self) -> EditManifestView {
        EditManifestView {
            version: self.version,
            candidate_id: self.candidate_id@,
            input_path: self.input_path@,
            output_path: self.output_path@,
            source_start_ms: self.source_start_ms,
            source_end_ms: self.source_end_ms,
            width: self.width,
            height: self.height,
            fps: self.fps,
            layout: self.layout@,
            hook_text: opt_view(self.hook_text),
            captions: cue_views(self.captions@),
        }
    }
}

/// The record of one publication on one platform.
#[derive(Debug)]
pub struct Outcome {
    pub candidate_id: String,
    pub platform: String,
    pub remote_id: String,
    pub status: String,
    pub idempotency_key: String,
    pub url: Option<String>,
}

/// The content of an [`Outcome`].
pub struct OutcomeView {
    pub candidate_id: Seq<char>,
    pub platform: Seq<char>,
    pub remote_id: Seq<char>,
    pub status: Seq<char>,
    pub idempotency_key: Seq<char>,
    pub url: Option<Seq<char>>,
}

impl View for Outcome {
    type V = OutcomeView;

    open spec fn view(&self) -> OutcomeView {
        OutcomeView {
            candidate_id: self.candidate_id@,
            platform: self.platform@,
            remote_id: self.remote_id@,
            status: self.status@,
            idempotency_key: self.idempotency_key@,
            url: opt_view(self.url),
        }
    }
}

/// Two proposals of the same session and source, the second starting no more than `gap_ms`
/// after the first ends, merge into one clip from the first start to the later end when that
/// clip lasts at most sixty seconds; with no gap allowed, a second proposal that starts after
/// the first ends stays separate, and so does one starting more than `gap_ms` after it.
pub proof fn law_proposals_within_the_gap_merge(a: CandidateView, b: CandidateView, gap_ms: i64)
    requires
        a.start_ms <= b.start_ms,
    ensures
        (a.session_id == b.session_id && a.source_id == b.source_id && b.start_ms <= a.end_ms + gap_ms
            && (if b.end_ms > a.end_ms { b.end_ms as int } else { a.end_ms as int }) - a.start_ms <= 60_000) ==> {
            let m = spec_merge_candidates(seq![a, b], gap_ms);
            &&& m.len() == 1
            &&& m[0].start_ms == a.start_ms
            &&& m[0].end_ms == (if b.end_ms > a.end_ms { b.end_ms } else { a.end_ms })
        },
        b.start_ms > a.end_ms ==> spec_merge_candidates(seq![a, b], 0).len() == 2,
        b.start_ms > a.end_ms + gap_ms >= i64::MIN ==> spec_merge_candidates(seq![a, b], gap_ms).len() == 2,
{
    assert(seq![a, b].drop_last() =~= seq![a]);
    assert(seq![a].drop_last() =~= Seq::<CandidateView>::empty());
    assert(sort_by_start(Seq::<CandidateView>::empty()) =~= Seq::<CandidateView>::empty());
    assert(sort_by_start(seq![a]) == insert_by_start(Seq::<CandidateView>::empty(), a));
    assert(sort_by_start(seq![a]) =~= seq![a]);
    assert(sort_by_start(seq![a, b]) == insert_by_start(seq![a], b));
    assert(insert_by_start(seq![a], b) =~= seq![a, b]);
    assert(merge_sorted(Seq::<CandidateView>::empty(), gap_ms) =~= Seq::<CandidateView>::empty());
    assert(merge_sorted(Seq::<CandidateView>::empty(), 0) =~= Seq::<CandidateView>::empty());
    assert(merge_sorted(seq![a], gap_ms) == merge_step(Seq::<CandidateView>::empty(), a, gap_ms));
    assert(merge_sorted(seq![a], 0) == merge_step(Seq::<CandidateView>::empty(), a, 0));
    assert(merge_sorted(seq![a], gap_ms) =~= seq![a]);
    assert(merge_sorted(seq![a], 0) =~= seq![a]);
    assert(merge_sorted(seq![a, b], gap_ms) == merge_step(seq![a], b, gap_ms));
    assert(merge_sorted(seq![a, b], 0) == merge_step(seq![a], b, 0));
}

/// A proposal that continues the last merged clip (same session and source, starting no more
/// than `gap_ms` after that clip ends) and keeps it within sixty seconds is absorbed: merging
/// one more proposal then adds no clip, and the last clip keeps its start and reaches the later
/// end.
pub proof fn law_a_close_proposal_is_absorbed(s: Seq<CandidateView>, c: CandidateView, gap_ms: i64)
    requires
        merge_sorted(s, gap_ms).len() > 0,
        ({
            let last = merge_sorted(s, gap_ms).last();
            &&& c.session_id == last.session_id
            &&& c.source_id == last.source_id
            &&& c.start_ms <= last.end_ms + gap_ms
            &&& (if c.end_ms > last.end_ms { c.end_ms as int } else { last.end_ms as int }) - last.start_ms <= 60_000
        }),
    ensures
        ({
            let before = merge_sorted(s, gap_ms);
            let after = merge_sorted(s.push(c), gap_ms);
            &&& after.len() == before.len()
            &&& after.last().start_ms == before.last().start_ms
            &&& after.last().end_ms == (if c.end_ms > before.last().end_ms { c.end_ms } else { before.last().end_ms })
        }),
{
    assert(s.push(c).drop_last() =~= s);
}

} // verus!
