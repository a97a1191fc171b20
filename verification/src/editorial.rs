//! Editorial review: bounds normalization and validation of model decisions, the staged review
//! of a candidate (director, then audio, editor and critic), role briefs and the
//! deterministic stand-ins used for testing.
use vstd::prelude::*;
use crate::domain::{
    copy_opt_string, cut_views, opt_view, publishable_duration, spec_candidate_check, valid_confidence, AudioAnnotation,
    AudioView, Candidate, CandidateError, CandidateView, ClipState, CutVariant, CutView, DecisionView,
    EditorialDecision, EditorialStage, CONFIDENCE_ONE, MAX_CLIP_MS, MIN_CLIP_MS,
};
use crate::text::{extend_chars, extend_str, int_text, int_text_i64, string_of};

verus! {

/// A director rejection at least this confident (fixed point) ends the review.
pub const CONFIDENT_REJECTION: i64 = 850_000;

/// Whether an alternative cut lies inside `min_ms..=max_ms` and lasts five to sixty seconds.
pub open spec fn cut_fits(c: CutView, min_ms: i64, max_ms: i64) -> bool {
    c.start_ms >= min_ms && c.end_ms <= max_ms && publishable_duration(c.end_ms - c.start_ms)
}

/// The alternatives that fit, in order.
pub open spec fn fitting_cuts(s: Seq<CutView>, min_ms: i64, max_ms: i64) -> Seq<CutView>
    decreases s.len(),
{
    if s.len() == 0 {
        Seq::empty()
    } else if cut_fits(s.last(), min_ms, max_ms) {
        fitting_cuts(s.drop_last(), min_ms, max_ms).push(s.last())
    } else {
        fitting_cuts(s.drop_last(), min_ms, max_ms)
    }
}

/// `v` clamped to `lo..=hi`.
pub open spec fn clamp(v: i64, lo: i64, hi: i64) -> i64 {
    if v < lo { lo } else if v > hi { hi } else { v }
}

/// Whether a decision with these (clamped) bounds can stand.
pub open spec fn usable_decision(stage: EditorialStage, confidence: i64, start: i64, end: i64) -> bool {
    valid_confidence(confidence) && end - start > 0 && (stage == EditorialStage::Observer || publishable_duration(end - start))
}

/// The rationale of a decision turned into a safe rejection.
pub open spec fn rejection_rationale(start: i64, end: i64, rationale: Seq<char>) -> Seq<char> {
    "Rejected because the model returned invalid boundaries ("@ + int_text(start as int) + ".."@ + int_text(end as int)
        + "); "@ + rationale
}

/// A model decision made safe for `min_ms..=max_ms`: alternatives that do not fit are dropped,
/// bounds are clamped, and a decision that is still unusable becomes a fully confident
/// rejection of the whole range that says why.
pub open spec fn normalized(d: DecisionView, min_ms: i64, max_ms: i64) -> DecisionView {
    let start = clamp(d.start_ms, min_ms, max_ms);
    let end = clamp(d.end_ms, min_ms, max_ms);
    let kept = fitting_cuts(d.alternatives, min_ms, max_ms);
    if usable_decision(d.stage, d.confidence, start, end) {
        DecisionView { start_ms: start, end_ms: end, alternatives: kept, ..d }
    } else {
        DecisionView {
            accept: false,
            confidence: CONFIDENCE_ONE,
            start_ms: min_ms,
            end_ms: max_ms,
            rationale: rejection_rationale(d.start_ms, d.end_ms, d.rationale),
            alternatives: kept,
            ..d
        }
    }
}

/// Whether normalization changed the bounds, the confidence or the number of alternatives.
pub open spec fn normalization_changed(d: DecisionView, min_ms: i64, max_ms: i64) -> bool {
    let n = normalized(d, min_ms, max_ms);
    n.start_ms != d.start_ms || n.end_ms != d.end_ms || n.confidence != d.confidence || n.alternatives.len()
        != d.alternatives.len()
}

/// Keeps a malformed model response local to one decision. Small overflows are clamped to the
/// supplied range; unusable ranges become safe rejections. Also says whether anything changed.
pub fn normalize_decision_bounds(decision: EditorialDecision, min_ms: i64, max_ms: i64) -> (r: (EditorialDecision, bool))
    requires
        min_ms <= max_ms,
    ensures
        r.0@ == normalized(decision@, min_ms, max_ms),
        r.1 == normalization_changed(decision@, min_ms, max_ms),
{
    let ghost d = decision@;
    let mut kept: Vec<CutVariant> = Vec::new();
    let mut i: usize = 0;
    while i < decision.alternatives.len()
        invariant
            i <= decision.alternatives@.len(),
            d == decision@,
            cut_views(kept@) == fitting_cuts(d.alternatives.subrange(0, i as int), min_ms, max_ms),
        decreases decision.alternatives.len() - i,
    {
        let ghost before = cut_views(kept@);
        assert(d.alternatives.subrange(0, i + 1).drop_last() =~= d.alternatives.subrange(0, i as int));
        assert(d.alternatives[i as int] == decision.alternatives@[i as int]@);
        let a = &decision.alternatives[i];
        let length: i128 = a.end_ms as i128 - a.start_ms as i128;
        if a.start_ms >= min_ms && a.end_ms <= max_ms && MIN_CLIP_MS as i128 <= length && length <= MAX_CLIP_MS as i128 {
            let c = a.duplicate();
            kept.push(c);
            assert(cut_views(kept@) =~= before.push(c@));
        }
        i = i + 1;
    }
    assert(d.alternatives.subrange(0, d.alternatives.len() as int) =~= d.alternatives);
    let start = if decision.start_ms < min_ms { min_ms } else if decision.start_ms > max_ms { max_ms } else { decision.start_ms };
    let end = if decision.end_ms < min_ms { min_ms } else if decision.end_ms > max_ms { max_ms } else { decision.end_ms };
    let duration: i128 = end as i128 - start as i128;
    let confidence_is_valid = 0 <= decision.confidence && decision.confidence <= CONFIDENCE_ONE;
    let usable = confidence_is_valid && duration > 0 && (decision.stage == EditorialStage::Observer || (
    MIN_CLIP_MS as i128 <= duration && duration <= MAX_CLIP_MS as i128));
    let alternatives_before = decision.alternatives.len();
    let kept_len = kept.len();
    let EditorialDecision { stage, accept, confidence, rationale, title, start_ms, end_ms, hook_text, layout, alternatives: _ } =
        decision;
    let result = if usable {
        EditorialDecision { stage, accept, confidence, rationale, title, start_ms: start, end_ms: end, hook_text, layout, alternatives: kept }
    } else {
        let mut text: Vec<char> = Vec::new();
        extend_str(&mut text, "Rejected because the model returned invalid boundaries (");
        let a = int_text_i64(start_ms);
        extend_chars(&mut text, &a);
        extend_str(&mut text, "..");
        let b = int_text_i64(end_ms);
        extend_chars(&mut text, &b);
        extend_str(&mut text, "); ");
        extend_str(&mut text, rationale.as_str());
        proof {
            assert(text@ =~= rejection_rationale(start_ms, end_ms, rationale@));
        }
        EditorialDecision {
            stage,
            accept: false,
            confidence: CONFIDENCE_ONE,
            rationale: string_of(&text),
            title,
            start_ms: min_ms,
            end_ms: max_ms,
            hook_text,
            layout,
            alternatives: kept,
        }
    };
    let changed = start_ms != result.start_ms || end_ms != result.end_ms || confidence != result.confidence
        || alternatives_before != kept_len;
    (result, changed)
}

/// Why a decision was refused.
#[derive(Debug, Clone, Copy, PartialEq, Eq, Structural)]
pub enum DecisionError {
    /// The confidence is not between zero and one.
    Confidence,
    /// The cut is empty or leaves the available range.
    Boundaries,
    /// A non-observer cut is not five to sixty seconds long.
    CutLength,
    /// An alternative cut leaves the range or has the wrong length.
    Alternative,
}

/// The first rule a decision breaks for the range `min_ms..=max_ms`, if any.
pub open spec fn decision_problem(d: DecisionView, min_ms: i64, max_ms: i64) -> Option<DecisionError> {
    if !valid_confidence(d.confidence) {
        Some(DecisionError::Confidence)
    } else if !(d.start_ms >= min_ms && d.end_ms <= max_ms && d.end_ms > d.start_ms) {
        Some(DecisionError::Boundaries)
    } else if d.stage != EditorialStage::Observer && !publishable_duration(d.end_ms - d.start_ms) {
        Some(DecisionError::CutLength)
    } else if d.stage != EditorialStage::Observer && exists|i: int|
        0 <= i < d.alternatives.len() && !cut_fits(#[trigger] d.alternatives[i], min_ms, max_ms) {
        Some(DecisionError::Alternative)
    } else {
        None
    }
}

/// Checks a decision against the available range.
pub fn validate_decision(decision: &EditorialDecision, min_ms: i64, max_ms: i64) -> (r: Result<(), DecisionError>)
    ensures
        match decision_problem(decision@, min_ms, max_ms) {
            None => r is Ok,
            Some(e) => r == Err::<(), DecisionError>(e),
        },
{
    if !(0 <= decision.confidence && decision.confidence <= CONFIDENCE_ONE) {
        return Err(DecisionError::Confidence);
    }
    if !(decision.start_ms >= min_ms && decision.end_ms <= max_ms && decision.end_ms > decision.start_ms) {
        return Err(DecisionError::Boundaries);
    }
    if decision.stage != EditorialStage::Observer {
        let length: i128 = decision.end_ms as i128 - decision.start_ms as i128;
        if !(MIN_CLIP_MS as i128 <= length && length <= MAX_CLIP_MS as i128) {
            return Err(DecisionError::CutLength);
        }
        let mut i: usize = 0;
        while i < decision.alternatives.len()
            invariant
                i <= decision.alternatives@.len(),
                valid_confidence(decision.confidence),
                decision.start_ms >= min_ms && decision.end_ms <= max_ms && decision.end_ms > decision.start_ms,
                decision.stage != EditorialStage::Observer,
                publishable_duration(decision.end_ms - decision.start_ms),
                forall|j: int| 0 <= j < i ==> cut_fits(#[trigger] decision@.alternatives[j], min_ms, max_ms),
            decreases decision.alternatives.len() - i,
        {
            let a = &decision.alternatives[i];
            assert(decision@.alternatives[i as int] == a@);
            let l: i128 = a.end_ms as i128 - a.start_ms as i128;
            if !(a.start_ms >= min_ms && a.end_ms <= max_ms && MIN_CLIP_MS as i128 <= l && l <= MAX_CLIP_MS as i128) {
                assert(!cut_fits(decision@.alternatives[i as int], min_ms, max_ms));
                return Err(DecisionError::Alternative);
            }
            i = i + 1;
        }
    }
    Ok(())
}

proof fn lemma_fitting_cuts_fit(s: Seq<CutView>, min_ms: i64, max_ms: i64)
    ensures
        forall|i: int| 0 <= i < fitting_cuts(s, min_ms, max_ms).len() ==> cut_fits(#[trigger] fitting_cuts(s, min_ms, max_ms)[i], min_ms, max_ms),
    decreases s.len(),
{
    if s.len() > 0 {
        lemma_fitting_cuts_fit(s.drop_last(), min_ms, max_ms);
        let init = fitting_cuts(s.drop_last(), min_ms, max_ms);
        let all = fitting_cuts(s, min_ms, max_ms);
        assert forall|i: int| 0 <= i < all.len() implies cut_fits(#[trigger] all[i], min_ms, max_ms) by {
            if i < init.len() {
                assert(all[i] == init[i]);
            }
        }
    }
}

/// A normalized decision passes validation for the same range whenever its confidence is valid
/// once normalized: every unusable response becomes a rejection that validation accepts, as
/// long as the range itself is a publishable cut (or the decision is an observation).
pub proof fn law_normalized_decisions_validate(d: DecisionView, min_ms: i64, max_ms: i64)
    requires
        min_ms < max_ms,
        d.stage == EditorialStage::Observer || publishable_duration(max_ms - min_ms),
    ensures
        decision_problem(normalized(d, min_ms, max_ms), min_ms, max_ms) is None,
{
    lemma_fitting_cuts_fit(d.alternatives, min_ms, max_ms);
}

/// A normalized decision keeps the model's verdict whenever its bounds were usable.
pub proof fn law_usable_decisions_keep_their_verdict(d: DecisionView, min_ms: i64, max_ms: i64)
    requires
        min_ms <= max_ms,
        usable_decision(d.stage, d.confidence, clamp(d.start_ms, min_ms, max_ms), clamp(d.end_ms, min_ms, max_ms)),
    ensures
        normalized(d, min_ms, max_ms).accept == d.accept,
        normalized(d, min_ms, max_ms).confidence == d.confidence,
{
}

/// When a decision's bounds, clamped to `min_ms..=max_ms`, make a usable cut (a valid
/// confidence, a positive length and, except for an observation, five to sixty seconds), the
/// normalized decision keeps the model's verdict and its bounds are exactly the model's bounds
/// clamped to the range: a start or end already inside the range is kept as given. Otherwise it
/// becomes a fully confident rejection of the whole range.
pub proof fn law_usable_bounds_are_only_clamped(d: DecisionView, min_ms: i64, max_ms: i64)
    requires
        min_ms <= max_ms,
    ensures
        ({
            let s = if d.start_ms < min_ms { min_ms } else if d.start_ms > max_ms { max_ms } else { d.start_ms };
            let e = if d.end_ms < min_ms { min_ms } else if d.end_ms > max_ms { max_ms } else { d.end_ms };
            let n = normalized(d, min_ms, max_ms);
            let usable = 0 <= d.confidence <= 1_000_000 && e > s && (d.stage == EditorialStage::Observer || 5_000 <= e - s
                <= 60_000);
            &&& usable ==> n.start_ms == s && n.end_ms == e && n.accept == d.accept && n.confidence == d.confidence
            &&& usable && min_ms <= d.start_ms <= max_ms ==> n.start_ms == d.start_ms
            &&& usable && min_ms <= d.end_ms <= max_ms ==> n.end_ms == d.end_ms
            &&& !usable ==> !n.accept && n.confidence == 1_000_000 && n.start_ms == min_ms && n.end_ms == max_ms
        }),
{
}

/// The brief each editorial role works from.
pub open spec fn spec_role_instructions(stage: EditorialStage) -> Seq<char> {
    match stage {
        EditorialStage::Observer => "Track developing standalone moments. Low-cost signals only change evidence density; decide from transcript, images, chat, and channel context. Accept means a coherent candidate is developing, not that it should publish."@,
        EditorialStage::Director => "Identify setup, escalation, payoff, and reaction. Prefer standalone stories with an immediate hook. Propose the shortest complete 5-60 second source interval."@,
        EditorialStage::Editor => "Compare the preceding proposal against plausible earlier and later boundaries. Remove dead air without losing comprehension. Choose one layout and truthful optional hook text."@,
        EditorialStage::Critic => "Independently try to reject this clip for weak context, a slow opening, dead tail, duplicate/repetitive content, misleading framing, privacy, safety, or platform-policy risk. Accept only if it survives."@,
    }
}

/// The brief for a editorial role.
pub fn role_instructions(stage: EditorialStage) -> (s: &'static str)
    ensures
        s@ == spec_role_instructions(stage),
{
    match stage {
        EditorialStage::Observer => "Track developing standalone moments. Low-cost signals only change evidence density; decide from transcript, images, chat, and channel context. Accept means a coherent candidate is developing, not that it should publish.",
        EditorialStage::Director => "Identify setup, escalation, payoff, and reaction. Prefer standalone stories with an immediate hook. Propose the shortest complete 5-60 second source interval.",
        EditorialStage::Editor => "Compare the preceding proposal against plausible earlier and later boundaries. Remove dead air without losing comprehension. Choose one layout and truthful optional hook text.",
        EditorialStage::Critic => "Independently try to reject this clip for weak context, a slow opening, dead tail, duplicate/repetitive content, misleading framing, privacy, safety, or platform-policy risk. Accept only if it survives.",
    }
}

/// The bounds guidance for a stage: the candidate's range when there is one, else the
/// evidence window's.
pub open spec fn spec_boundary_instructions(stage: EditorialStage, min_ms: i64, max_ms: i64) -> Seq<char> {
    "Use absolute VOD timestamps in milliseconds, never timestamps relative to the candidate. The strict permitted range is "@
        + int_text(min_ms as int) + " <= start_ms < end_ms <= "@ + int_text(max_ms as int) + ". "@ + if stage
        == EditorialStage::Observer {
        "The end must be greater than the start."@
    } else {
        "The selected interval must be 5,000 to 60,000 milliseconds long."@
    }
}

/// Tells a model which absolute range its answer must stay in.
pub fn boundary_instructions(stage: EditorialStage, evidence_start_ms: i64, evidence_end_ms: i64, candidate: Option<&Candidate>) -> (s: String)
    ensures
        s@ == (match candidate {
            Some(c) => spec_boundary_instructions(stage, c.start_ms, c.end_ms),
            None => spec_boundary_instructions(stage, evidence_start_ms, evidence_end_ms),
        }),
{
    let (min_ms, max_ms) = match candidate {
        Some(c) => (c.start_ms, c.end_ms),
        None => (evidence_start_ms, evidence_end_ms),
    };
    let mut text: Vec<char> = Vec::new();
    extend_str(&mut text, "Use absolute VOD timestamps in milliseconds, never timestamps relative to the candidate. The strict permitted range is ");
    let a = int_text_i64(min_ms);
    extend_chars(&mut text, &a);
    extend_str(&mut text, " <= start_ms < end_ms <= ");
    let b = int_text_i64(max_ms);
    extend_chars(&mut text, &b);
    extend_str(&mut text, ". ");
    if stage == EditorialStage::Observer {
        extend_str(&mut text, "The end must be greater than the start.");
    } else {
        extend_str(&mut text, "The selected interval must be 5,000 to 60,000 milliseconds long.");
    }
    string_of(&text)
}

/// The annotation recorded when audio analysis is skipped.
pub open spec fn skipped_audio() -> AudioView {
    AudioView {
        emotional_arc: "audio analysis skipped after confident director rejection"@,
        nonverbal_events: Seq::empty(),
        hook_ms: None,
        payoff_ms: None,
        confidence: 0,
    }
}

/// The annotation recorded when a confident director rejection makes audio analysis moot.
pub fn skipped_audio_annotation() -> (a: AudioAnnotation)
    ensures
        a@ == skipped_audio(),
{
    let a = AudioAnnotation {
        emotional_arc: "audio analysis skipped after confident director rejection".to_owned(),
        nonverbal_events: Vec::new(),
        hook_ms: None,
        payoff_ms: None,
        confidence: 0,
    };
    assert(a@.nonverbal_events =~= Seq::<Seq<char>>::empty());
    a
}

/// Decides from a model's observation of an evidence window: the decision normalized to the
/// window and validated against it.
pub fn settle_observation(decision: EditorialDecision, evidence_start_ms: i64, evidence_end_ms: i64) -> (r: Result<EditorialDecision, DecisionError>)
    requires
        evidence_start_ms <= evidence_end_ms,
    ensures
        match decision_problem(normalized(decision@, evidence_start_ms, evidence_end_ms), evidence_start_ms, evidence_end_ms) {
            None => r matches Ok(d) && d@ == normalized(decision@, evidence_start_ms, evidence_end_ms),
            Some(e) => r == Err::<EditorialDecision, DecisionError>(e),
        },
{
    let (d, _) = normalize_decision_bounds(decision, evidence_start_ms, evidence_end_ms);
    match validate_decision(&d, evidence_start_ms, evidence_end_ms) {
        Ok(()) => Ok(d),
        Err(e) => Err(e),
    }
}

/// What the review needs next.
#[derive(Debug, Clone, Copy, PartialEq, Eq, Structural)]
pub enum ReviewStep {
    /// A decision from the model for this stage.
    Decide(EditorialStage),
    /// An audio annotation of the candidate.
    Annotate,
    /// Nothing: the review can be finished.
    Finished,
}

/// Why a review could not go on.
#[derive(Debug, Clone, Copy, PartialEq, Eq, Structural)]
pub enum ReviewError {
    /// The candidate itself is invalid.
    Candidate(CandidateError),
    /// The candidate is not ready for review.
    NotReady,
    /// A stage's decision was refused.
    Decision(DecisionError),
}

/// The state of a review: the candidate, the decisions so far, the audio annotation once there
/// is one, and whether the director's confident rejection ended the review.
pub struct ReviewView {
    pub candidate: CandidateView,
    pub decisions: Seq<DecisionView>,
    pub audio: Option<AudioView>,
    pub stopped: bool,
}

/// The next step of a review in state `v`.
pub open spec fn spec_next_step(v: ReviewView) -> ReviewStep {
    if v.decisions.len() == 0 {
        ReviewStep::Decide(EditorialStage::Director)
    } else if v.stopped {
        ReviewStep::Finished
    } else if v.decisions.len() == 1 && v.audio is None {
        ReviewStep::Annotate
    } else if v.decisions.len() == 1 {
        ReviewStep::Decide(EditorialStage::Editor)
    } else if v.decisions.len() == 2 {
        ReviewStep::Decide(EditorialStage::Critic)
    } else {
        ReviewStep::Finished
    }
}

/// Whether a director decision confidently rejects the candidate.
pub open spec fn confident_rejection(d: DecisionView) -> bool {
    !d.accept && d.confidence >= CONFIDENT_REJECTION
}

/// The states a review can be in.
pub open spec fn review_wf(v: ReviewView) -> bool {
    &&& v.decisions.len() <= 3
    &&& v.stopped ==> v.decisions.len() == 1 && v.audio == Some(skipped_audio()) && confident_rejection(v.decisions[0])
    &&& !v.stopped && v.decisions.len() >= 1 ==> !confident_rejection(v.decisions[0])
    &&& v.decisions.len() >= 2 ==> v.audio is Some
    &&& v.decisions.len() == 0 ==> v.audio is None
    &&& v.candidate.start_ms <= v.candidate.end_ms
}

/// The state after recording `d` as the answer to the pending stage: the decision normalized to
/// the candidate and validated; a confident director rejection ends the review and skips audio.
pub open spec fn after_decision(v: ReviewView, d: DecisionView) -> Result<ReviewView, DecisionError> {
    let n = normalized(d, v.candidate.start_ms, v.candidate.end_ms);
    match decision_problem(n, v.candidate.start_ms, v.candidate.end_ms) {
        Some(e) => Err(e),
        None => if v.decisions.len() == 0 && confident_rejection(n) {
            Ok(ReviewView { decisions: seq![n], audio: Some(skipped_audio()), stopped: true, ..v })
        } else {
            Ok(ReviewView { decisions: v.decisions.push(n), ..v })
        },
    }
}

/// A candidate under review.
pub struct Review {
    candidate: Candidate,
    decisions: Vec<EditorialDecision>,
    audio: Option<AudioAnnotation>,
    stopped: bool,
}

impl View for Review {
    type V = ReviewView;

    closed spec fn view(&self) -> ReviewView {
        ReviewView {
            candidate: self.candidate@,
            decisions: Seq::new(self.decisions@.len(), |i: int| self.decisions@[i]@),
            audio: match self.audio {
                Some(a) => Some(a@),
                None => None,
            },
            stopped: self.stopped,
        }
    }
}

/// The outcome of a finished review.
pub struct ReviewResult {
    pub candidate: Candidate,
    pub decisions: Vec<EditorialDecision>,
    pub audio: AudioAnnotation,
    pub accepted: bool,
    pub final_decision: EditorialDecision,
}

impl Review {
    /// Starts reviewing a valid candidate that is ready for review.
    pub fn begin(candidate: Candidate) -> (r: Result<Review, ReviewError>)
        ensures
            match r {
                Ok(review) => spec_candidate_check(candidate@) is Ok && candidate@.state == ClipState::Ready
                    && review@ == (ReviewView { candidate: candidate@, decisions: Seq::empty(), audio: None, stopped: false })
                    && review_wf(review@),
                Err(ReviewError::Candidate(e)) => spec_candidate_check(candidate@) == Err::<(), CandidateError>(e),
                Err(ReviewError::NotReady) => spec_candidate_check(candidate@) is Ok && candidate@.state != ClipState::Ready,
                Err(_) => false,
            },
    {
        match candidate.validate() {
            Err(e) => return Err(ReviewError::Candidate(e)),
            Ok(()) => {},
        }
        if candidate.state != ClipState::Ready {
            return Err(ReviewError::NotReady);
        }
        let review = Review { candidate, decisions: Vec::new(), audio: None, stopped: false };
        assert(review@.decisions =~= Seq::<DecisionView>::empty());
        Ok(review)
    }

    /// The candidate under review.
    pub fn candidate(&self) -> (c: &Candidate)
        ensures
            c@ == self@.candidate,
    {
        &self.candidate
    }

    /// The decisions recorded so far, as normalized when they were recorded.
    pub fn decisions(&self) -> (d: &[EditorialDecision])
        ensures
            Seq::new(d@.len(), |i: int| d@[i]@) == self@.decisions,
    {
        self.decisions.as_slice()
    }

    /// The audio annotation, once there is one.
    pub fn audio(&self) -> (a: Option<&AudioAnnotation>)
        ensures
            match a {
                Some(x) => self@.audio == Some(x@),
                None => self@.audio is None,
            },
    {
        self.audio.as_ref()
    }

    /// What the review needs next.
    pub fn next_step(&self) -> (s: ReviewStep)
        ensures
            s == spec_next_step(self@),
    {
        let n = self.decisions.len();
        if n == 0 {
            ReviewStep::Decide(EditorialStage::Director)
        } else if self.stopped {
            ReviewStep::Finished
        } else if n == 1 && self.audio.is_none() {
            ReviewStep::Annotate
        } else if n == 1 {
            ReviewStep::Decide(EditorialStage::Editor)
        } else if n == 2 {
            ReviewStep::Decide(EditorialStage::Critic)
        } else {
            ReviewStep::Finished
        }
    }

    /// Records the model's answer to the pending stage.
    pub fn record_decision(&mut self, decision: EditorialDecision) -> (r: Result<(), ReviewError>)
        requires
            review_wf(old(self)@),
            spec_next_step(old(self)@) is Decide,
        ensures
            review_wf(final(self)@),
            match after_decision(old(self)@, decision@) {
                Ok(v) => r is Ok && final(self)@ == v,
                Err(e) => r == Err::<(), ReviewError>(ReviewError::Decision(e)) && final(self)@ == old(self)@,
            },
    {
        let ghost before = self@;
        let (n, _) = normalize_decision_bounds(decision, self.candidate.start_ms, self.candidate.end_ms);
        match validate_decision(&n, self.candidate.start_ms, self.candidate.end_ms) {
            Err(e) => return Err(ReviewError::Decision(e)),
            Ok(()) => {},
        }
        if self.decisions.len() == 0 && !n.accept && n.confidence >= CONFIDENT_REJECTION {
            self.decisions.push(n);
            self.audio = Some(skipped_audio_annotation());
            self.stopped = true;
            assert(self@.decisions =~= seq![normalized(decision@, before.candidate.start_ms, before.candidate.end_ms)]);
        } else {
            self.decisions.push(n);
            assert(self@.decisions =~= before.decisions.push(normalized(decision@, before.candidate.start_ms, before.candidate.end_ms)));
        }
        Ok(())
    }

    /// Records the audio annotation the review asked for.
    pub fn record_audio(&mut self, audio: AudioAnnotation)
        requires
            review_wf(old(self)@),
            spec_next_step(old(self)@) == ReviewStep::Annotate,
        ensures
            review_wf(final(self)@),
            final(self)@ == (ReviewView { audio: Some(audio@), ..old(self)@ }),
    {
        self.audio = Some(audio);
    }

    /// Ends the review: the last decision is final, and the candidate is accepted exactly when
    /// it accepts.
    pub fn finish(self) -> (r: ReviewResult)
        requires
            review_wf(self@),
            spec_next_step(self@) == ReviewStep::Finished,
        ensures
            r.final_decision@ == self@.decisions.last(),
            r.accepted == self@.decisions.last().accept,
            r.candidate@ == (CandidateView {
                state: if r.accepted { ClipState::Accepted } else { ClipState::Rejected },
                ..self@.candidate
            }),
            Seq::new(r.decisions@.len(), |i: int| r.decisions@[i]@) == self@.decisions,
            Some(r.audio@) == self@.audio,
    {
        let Review { candidate, decisions, audio, stopped } = self;
        let n = decisions.len();
        let final_decision = decisions[n - 1].duplicate();
        let accepted = final_decision.accept;
        let mut candidate = candidate;
        candidate.state = if accepted { ClipState::Accepted } else { ClipState::Rejected };
        let audio = match audio {
            Some(a) => a,
            None => skipped_audio_annotation(),
        };
        ReviewResult { candidate, decisions, audio, accepted, final_decision }
    }
}

/// A confident director rejection ends the review at once: nothing more is asked of the
/// models or the audio analyzer, and the candidate is rejected.
pub proof fn law_confident_director_rejection_skips_remaining_review(v: ReviewView, d: DecisionView)
    requires
        review_wf(v),
        v.decisions.len() == 0,
        after_decision(v, d) is Ok,
        confident_rejection(normalized(d, v.candidate.start_ms, v.candidate.end_ms)),
    ensures
        spec_next_step(after_decision(v, d)->Ok_0) == ReviewStep::Finished,
        after_decision(v, d)->Ok_0.decisions.len() == 1,
        !after_decision(v, d)->Ok_0.decisions.last().accept,
        after_decision(v, d)->Ok_0.audio == Some(skipped_audio()),
{
}

/// Without a confident director rejection the review asks, in order, for the audio annotation,
/// the editor and the critic, and the critic's verdict is final: the critic can veto every
/// earlier stage.
pub proof fn law_critic_has_the_last_word(v: ReviewView)
    requires
        review_wf(v),
        !v.stopped,
        spec_next_step(v) == ReviewStep::Finished,
    ensures
        v.decisions.len() == 3,
{
}

/// A coordinator of a decision model and an audio analyzer.
pub struct EditorialCoordinator<M, A> {
    pub model: M,
    pub audio: A,
}

impl<M, A> EditorialCoordinator<M, A> {
    /// A coordinator for the given model and audio analyzer.
    pub fn new(model: M, audio: A) -> (c: Self)
        ensures
            c.model == model,
            c.audio == audio,
    {
        EditorialCoordinator { model, audio }
    }
}

/// A model that accepts or rejects every candidate, with fixed text.
#[derive(Debug, Clone)]
pub struct DeterministicEditorial {
    pub accept: bool,
}

impl DeterministicEditorial {
    /// The model's name for every stage.
    pub fn model_name(&self, stage: EditorialStage) -> (s: &'static str)
        ensures
            s@ == "deterministic-editorial"@,
    {
        "deterministic-editorial"
    }

    /// The fixed decision for a stage: the candidate's range (or the evidence window's), the
    /// configured verdict with confidence 0.9 (accept) or 0.1 (reject), and a hook only when
    /// accepting.
    pub fn decide(&self, stage: EditorialStage, evidence_start_ms: i64, evidence_end_ms: i64, candidate: Option<&Candidate>) -> (d: EditorialDecision)
        ensures
            d@.stage == stage,
            d@.accept == self.accept,
            d@.confidence == (if self.accept { 900_000i64 } else { 100_000i64 }),
            d@.rationale == "deterministic test decision"@,
            d@.title == "Test clip"@,
            (d@.start_ms, d@.end_ms) == (match candidate {
                Some(c) => (c.start_ms, c.end_ms),
                None => (evidence_start_ms, evidence_end_ms),
            }),
            d@.hook_text == (if self.accept { Some("Wait for it"@) } else { None }),
            d@.layout == Some("fit_blur"@),
            d@.alternatives.len() == 0,
    {
        let (start_ms, end_ms) = match candidate {
            Some(c) => (c.start_ms, c.end_ms),
            None => (evidence_start_ms, evidence_end_ms),
        };
        let d = EditorialDecision {
            stage,
            accept: self.accept,
            confidence: if self.accept { 900_000 } else { 100_000 },
            rationale: "deterministic test decision".to_owned(),
            title: "Test clip".to_owned(),
            start_ms,
            end_ms,
            hook_text: if self.accept { Some("Wait for it".to_owned()) } else { None },
            layout: Some("fit_blur".to_owned()),
            alternatives: Vec::new(),
        };
        d
    }
}

/// An audio analyzer that reports a fixed reading of every candidate.
#[derive(Debug, Clone)]
pub struct DeterministicAudioAnnotation;

impl Default for DeterministicAudioAnnotation {
    fn default() -> (a: Self) {
        DeterministicAudioAnnotation
    }
}

impl DeterministicAudioAnnotation {
    /// The fixed reading: a hook at the candidate's start, the payoff at its payoff or end.
    pub fn annotate(&self, candidate: &Candidate) -> (a: AudioAnnotation)
        ensures
            a@.emotional_arc == "rising surprise followed by payoff"@,
            a@.nonverbal_events == seq!["laughter"@],
            a@.hook_ms == Some(candidate.start_ms),
            a@.payoff_ms == (match candidate.payoff_ms {
                Some(p) => Some(p),
                None => Some(candidate.end_ms),
            }),
            a@.confidence == 800_000,
    {
        let mut events: Vec<String> = Vec::new();
        events.push("laughter".to_owned());
        let a = AudioAnnotation {
            emotional_arc: "rising surprise followed by payoff".to_owned(),
            nonverbal_events: events,
            hook_ms: Some(candidate.start_ms),
            payoff_ms: match candidate.payoff_ms {
                Some(p) => Some(p),
                None => Some(candidate.end_ms),
            },
            confidence: 800_000,
        };
        assert(a@.nonverbal_events =~= seq!["laughter"@]);
        a
    }
}

} // verus!
