use better_hand::session::{session_step, SessionState, StepAction};
use better_hand::types::InputError;

fn bytes(s: &str) -> Vec<u8> {
    s.as_bytes().to_vec()
}

#[test]
fn exit_at_hand_prompt_quits_without_evaluation() {
    let (state, action) = session_step(SessionState::AwaitingHand, &bytes("exit"));
    assert!(matches!(state, SessionState::Done));
    assert!(matches!(action, StepAction::Quit));
}

#[test]
fn exit_is_case_insensitive() {
    let (state, action) = session_step(SessionState::AwaitingHand, &bytes("EXIT"));
    assert!(matches!(state, SessionState::Done));
    assert!(matches!(action, StepAction::Quit));
}

#[test]
fn exit_at_later_prompts_quits() {
    let (_, action) = session_step(SessionState::AwaitingHand, &bytes("AsAh"));
    assert!(matches!(action, StepAction::Proceed));
    let state = SessionState::AwaitingFlop {
        hero: better_hand::parse::parse_cards(&bytes("AsAh")).unwrap(),
    };
    let (state, action) = session_step(state, &bytes("exit"));
    assert!(matches!(state, SessionState::Done));
    assert!(matches!(action, StepAction::Quit));
}

#[test]
fn full_session_walk() {
    // Hand: stored, nothing evaluated yet.
    let (state, action) = session_step(SessionState::AwaitingHand, &bytes("AsAh"));
    assert!(matches!(action, StepAction::Proceed));
    assert!(matches!(state, SessionState::AwaitingFlop { .. }));

    // Flop: first evaluation, three board cards.
    let (state, action) = session_step(state, &bytes("AdKc2h"));
    match &action {
        StepAction::Evaluate { hero, board } => {
            assert_eq!(hero.len(), 2);
            assert_eq!(board.len(), 3);
        }
        other => panic!("unexpected action {:?}", session_action_name(other)),
    }
    assert!(matches!(state, SessionState::AwaitingTurn { .. }));

    // Turn: one more card, four on the board.
    let (state, action) = session_step(state, &bytes("2d"));
    match &action {
        StepAction::Evaluate { board, .. } => assert_eq!(board.len(), 4),
        other => panic!("unexpected action {:?}", session_action_name(other)),
    }
    assert!(matches!(state, SessionState::AwaitingRiver { .. }));

    // River: the full board, and the session loops back to the hand prompt.
    let (state, action) = session_step(state, &bytes("2s"));
    match &action {
        StepAction::Evaluate { board, .. } => assert_eq!(board.len(), 5),
        other => panic!("unexpected action {:?}", session_action_name(other)),
    }
    assert!(matches!(state, SessionState::AwaitingHand));
}

fn session_action_name(a: &StepAction) -> &'static str {
    match a {
        StepAction::Quit => "Quit",
        StepAction::Reprompt { .. } => "Reprompt",
        StepAction::Proceed => "Proceed",
        StepAction::Evaluate { .. } => "Evaluate",
    }
}

#[test]
fn malformed_hand_reprompts_same_field() {
    let (state, action) = session_step(SessionState::AwaitingHand, &bytes("A"));
    assert!(matches!(state, SessionState::AwaitingHand));
    assert!(matches!(
        action,
        StepAction::Reprompt {
            error: InputError::MalformedCardToken
        }
    ));
}

#[test]
fn wrong_hand_length_reprompts_same_field() {
    let (state, action) = session_step(SessionState::AwaitingHand, &bytes("AsAhKd"));
    assert!(matches!(state, SessionState::AwaitingHand));
    assert!(matches!(
        action,
        StepAction::Reprompt {
            error: InputError::WrongHandLength
        }
    ));
}

#[test]
fn wrong_flop_length_reprompts_same_field() {
    let (state, _) = session_step(SessionState::AwaitingHand, &bytes("AsAh"));
    let (state, action) = session_step(state, &bytes("AdKc"));
    assert!(matches!(state, SessionState::AwaitingFlop { .. }));
    assert!(matches!(
        action,
        StepAction::Reprompt {
            error: InputError::WrongBoardLength
        }
    ));
}

#[test]
fn duplicate_at_flop_restarts_session() {
    let (state, _) = session_step(SessionState::AwaitingHand, &bytes("AsAh"));
    let (state, action) = session_step(state, &bytes("AsKcQd"));
    assert!(matches!(state, SessionState::AwaitingHand));
    assert!(matches!(
        action,
        StepAction::Reprompt {
            error: InputError::DuplicateCard
        }
    ));
}
