use clipfarmer::domain::{merge_candidates, Candidate, ClipState};

const ALL: [ClipState; 12] = [
    ClipState::Observing,
    ClipState::Emerging,
    ClipState::Maturing,
    ClipState::Ready,
    ClipState::Accepted,
    ClipState::Rejected,
    ClipState::Rendered,
    ClipState::Staged,
    ClipState::Publishing,
    ClipState::Published,
    ClipState::AwaitingCreator,
    ClipState::Failed,
];

fn candidate(id: &str, start_ms: i64, end_ms: i64) -> Candidate {
    Candidate {
        id: id.to_owned(),
        session_id: "session".to_owned(),
        channel_id: "channel".to_owned(),
        source: "twitch".to_owned(),
        source_id: "source".to_owned(),
        start_ms,
        end_ms,
        payoff_ms: Some(end_ms),
        transcript: String::new(),
        observer_confidence: 800_000,
        state: ClipState::Emerging,
    }
}

#[test]
fn merges_same_event_but_never_over_sixty_seconds() {
    let merged = merge_candidates(vec![candidate("a", 0, 30_000), candidate("b", 29_000, 50_000)], 2_000);
    assert_eq!(merged.len(), 1);
    assert_eq!(merged[0].end_ms, 50_000);
    let not_merged = merge_candidates(vec![candidate("a", 0, 30_000), candidate("b", 29_000, 70_000)], 2_000);
    assert_eq!(not_merged.len(), 2);
}

#[test]
fn lifecycle_rejects_skipping_the_critic_gate() {
    assert!(ClipState::Ready.can_transition_to(&ClipState::Accepted));
    assert!(!ClipState::Emerging.can_transition_to(&ClipState::Accepted));
    assert!(!ClipState::Ready.can_transition_to(&ClipState::Published));
}

#[test]
fn acceptance_is_only_reached_from_ready() {
    for state in ALL {
        assert_eq!(state.can_transition_to(&ClipState::Accepted), state == ClipState::Ready);
    }
}

#[test]
fn candidate_validation_checks_length_and_identifiers() {
    assert!(candidate("a", 0, 5_000).validate().is_ok());
    assert!(candidate("a", 0, 4_999).validate().is_err());
    assert!(candidate("a", 0, 60_001).validate().is_err());
    assert!(candidate("", 0, 10_000).validate().is_err());
}

#[test]
fn clip_states_round_trip_through_their_names() {
    for state in ALL {
        assert_eq!(ClipState::from_name(state.name()).unwrap(), state);
    }
    assert!(ClipState::from_name("bogus").is_err());
}

#[test]
fn merged_candidates_are_sorted_by_start() {
    let merged = merge_candidates(vec![candidate("b", 40_000, 50_000), candidate("a", 0, 10_000)], 2_000);
    assert_eq!(merged.len(), 2);
    assert!(merged[0].start_ms <= merged[1].start_ms);
}

#[test]
fn the_gate_is_entered_only_through_acceptance() {
    let past = |state: &ClipState| {
        matches!(
            state,
            ClipState::Accepted
                | ClipState::Rendered
                | ClipState::Staged
                | ClipState::Publishing
                | ClipState::AwaitingCreator
                | ClipState::Published
        )
    };
    for from in ALL.iter() {
        for to in ALL.iter() {
            if !past(from) && past(to) && from.can_transition_to(to) {
                assert_eq!((*from, *to), (ClipState::Ready, ClipState::Accepted));
            }
        }
    }
}
