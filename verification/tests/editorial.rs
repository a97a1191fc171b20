use clipfarmer::domain::{Candidate, ClipState, CutVariant, EditorialDecision, EditorialStage};
use clipfarmer::editorial::{
    boundary_instructions, normalize_decision_bounds, role_instructions, settle_observation, skipped_audio_annotation,
    validate_decision, DecisionError, DeterministicAudioAnnotation, DeterministicEditorial, EditorialCoordinator, Review,
    ReviewError, ReviewStep,
};

fn decision(stage: EditorialStage, accept: bool, confidence: i64, start_ms: i64, end_ms: i64) -> EditorialDecision {
    EditorialDecision {
        stage,
        accept,
        confidence,
        rationale: "complete moment".to_owned(),
        title: "Clip".to_owned(),
        start_ms,
        end_ms,
        hook_text: None,
        layout: None,
        alternatives: Vec::new(),
    }
}

fn candidate(state: ClipState) -> Candidate {
    Candidate {
        id: "candidate".to_owned(),
        session_id: "session".to_owned(),
        channel_id: "channel".to_owned(),
        source: "twitch".to_owned(),
        source_id: "source".to_owned(),
        start_ms: 0,
        end_ms: 10_000,
        payoff_ms: None,
        transcript: String::new(),
        observer_confidence: 900_000,
        state,
    }
}

#[test]
fn clamps_small_boundary_overflow_without_changing_acceptance() {
    let d = decision(EditorialStage::Director, true, 800_000, 117_000, 143_000);
    let (normalized, changed) = normalize_decision_bounds(d, 120_000, 145_000);
    assert!(changed);
    assert!(normalized.accept);
    assert_eq!((normalized.start_ms, normalized.end_ms), (120_000, 143_000));
}

#[test]
fn converts_unusable_boundaries_to_safe_rejection() {
    let d = decision(EditorialStage::Director, true, 800_000, 0, 20_000);
    let (normalized, changed) = normalize_decision_bounds(d, 120_000, 145_000);
    assert!(changed);
    assert!(!normalized.accept);
    assert_eq!((normalized.start_ms, normalized.end_ms), (120_000, 145_000));
    validate_decision(&normalized, 120_000, 145_000).unwrap();
    assert_eq!(
        normalized.rationale,
        "Rejected because the model returned invalid boundaries (0..20000); complete moment"
    );
    assert_eq!(normalized.confidence, 1_000_000);
}

#[test]
fn confident_director_rejection_skips_remaining_review() {
    let mut review = Review::begin(candidate(ClipState::Ready)).unwrap();
    assert_eq!(review.next_step(), ReviewStep::Decide(EditorialStage::Director));
    review.record_decision(decision(EditorialStage::Director, false, 900_000, 0, 10_000)).unwrap();
    assert_eq!(review.next_step(), ReviewStep::Finished);
    let result = review.finish();
    assert!(!result.accepted);
    assert_eq!(result.decisions.len(), 1);
    assert_eq!(result.audio.confidence, 0);
    assert_eq!(result.candidate.state, ClipState::Rejected);
}

#[test]
fn independent_critic_has_the_last_word() {
    let mut review = Review::begin(candidate(ClipState::Ready)).unwrap();
    review.record_decision(decision(EditorialStage::Director, true, 900_000, 0, 10_000)).unwrap();
    assert_eq!(review.next_step(), ReviewStep::Annotate);
    review.record_audio(DeterministicAudioAnnotation.annotate(&candidate(ClipState::Ready)));
    assert_eq!(review.next_step(), ReviewStep::Decide(EditorialStage::Editor));
    review.record_decision(decision(EditorialStage::Editor, true, 900_000, 0, 10_000)).unwrap();
    assert_eq!(review.next_step(), ReviewStep::Decide(EditorialStage::Critic));
    review.record_decision(decision(EditorialStage::Critic, false, 600_000, 0, 10_000)).unwrap();
    assert_eq!(review.next_step(), ReviewStep::Finished);
    let result = review.finish();
    assert_eq!(result.decisions.len(), 3);
    assert!(!result.accepted);
    assert_eq!(result.candidate.state, ClipState::Rejected);
    assert_eq!(result.final_decision.stage, EditorialStage::Critic);
}

#[test]
fn review_requires_a_ready_valid_candidate() {
    assert!(matches!(Review::begin(candidate(ClipState::Emerging)), Err(ReviewError::NotReady)));
    let mut short = candidate(ClipState::Ready);
    short.end_ms = 1_000;
    assert!(matches!(Review::begin(short), Err(ReviewError::Candidate(_))));
}

#[test]
fn decision_validation_names_each_problem() {
    assert_eq!(
        validate_decision(&decision(EditorialStage::Director, true, 2_000_000, 0, 10_000), 0, 10_000),
        Err(DecisionError::Confidence)
    );
    assert_eq!(
        validate_decision(&decision(EditorialStage::Director, true, 500_000, 0, 20_000), 0, 10_000),
        Err(DecisionError::Boundaries)
    );
    assert_eq!(
        validate_decision(&decision(EditorialStage::Director, true, 500_000, 0, 4_000), 0, 10_000),
        Err(DecisionError::CutLength)
    );
    assert!(validate_decision(&decision(EditorialStage::Observer, true, 500_000, 0, 4_000), 0, 10_000).is_ok());
    let mut with_alternative = decision(EditorialStage::Director, true, 500_000, 0, 10_000);
    with_alternative.alternatives.push(CutVariant { start_ms: 0, end_ms: 1_000, rationale: "short".to_owned() });
    assert_eq!(validate_decision(&with_alternative, 0, 10_000), Err(DecisionError::Alternative));
}

#[test]
fn normalization_drops_alternatives_that_do_not_fit() {
    let mut d = decision(EditorialStage::Director, true, 500_000, 0, 10_000);
    d.alternatives.push(CutVariant { start_ms: 0, end_ms: 6_000, rationale: "fits".to_owned() });
    d.alternatives.push(CutVariant { start_ms: 0, end_ms: 90_000, rationale: "too long".to_owned() });
    let (n, changed) = normalize_decision_bounds(d, 0, 10_000);
    assert!(changed);
    assert_eq!(n.alternatives.len(), 1);
    assert_eq!(n.alternatives[0].rationale, "fits");
}

#[test]
fn observations_are_normalized_to_the_window() {
    let d = decision(EditorialStage::Observer, true, 700_000, -500, 3_000);
    let settled = settle_observation(d, 0, 12_000).unwrap();
    assert_eq!((settled.start_ms, settled.end_ms), (0, 3_000));
}

#[test]
fn role_and_boundary_instructions() {
    assert!(role_instructions(EditorialStage::Critic).starts_with("Independently try to reject"));
    let c = candidate(ClipState::Ready);
    assert_eq!(
        boundary_instructions(EditorialStage::Director, 0, 12_000, Some(&c)),
        "Use absolute VOD timestamps in milliseconds, never timestamps relative to the candidate. The strict permitted range is 0 <= start_ms < end_ms <= 10000. The selected interval must be 5,000 to 60,000 milliseconds long."
    );
    assert!(boundary_instructions(EditorialStage::Observer, 5, 12_000, None).contains("5 <= start_ms < end_ms <= 12000. The end must be greater than the start."));
}

#[test]
fn deterministic_stand_ins() {
    let model = DeterministicEditorial { accept: true };
    let d = model.decide(EditorialStage::Editor, 0, 10_000, None);
    assert_eq!(d.confidence, 900_000);
    assert_eq!(d.hook_text.as_deref(), Some("Wait for it"));
    assert_eq!(model.model_name(EditorialStage::Critic), "deterministic-editorial");
    let audio = DeterministicAudioAnnotation.annotate(&candidate(ClipState::Ready));
    assert_eq!(audio.payoff_ms, Some(10_000));
    assert_eq!(skipped_audio_annotation().confidence, 0);
    let coordinator = EditorialCoordinator::new(model, DeterministicAudioAnnotation);
    assert!(coordinator.model.accept);
}

#[test]
fn review_exposes_its_progress() {
    let mut review = Review::begin(candidate(ClipState::Ready)).unwrap();
    assert_eq!(review.candidate().state, ClipState::Ready);
    assert!(review.decisions().is_empty());
    assert!(review.audio().is_none());
    review.record_decision(decision(EditorialStage::Director, true, 900_000, 0, 10_000)).unwrap();
    assert_eq!(review.decisions().len(), 1);
    assert_eq!(review.decisions()[0].stage, EditorialStage::Director);
    assert!(review.audio().is_none());
    review.record_audio(DeterministicAudioAnnotation.annotate(&candidate(ClipState::Ready)));
    assert!(review.audio().is_some());
}
