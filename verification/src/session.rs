//! The interactive session as an explicit state machine: one prompt per
//! state, one step per line of input. The step function decides everything —
//! exit, re-prompt, advance, evaluate — and the surrounding program only
//! performs the returned action. No evaluation is ever requested before a
//! full flop is on the table.

use vstd::prelude::*;
use crate::types::{Card, InputError};
use crate::combos::distinct_seq;
use crate::parse::{is_exit, parse_cards, spec_is_exit, spec_parse_cards};
use crate::driver::copy_cards;

verus! {

/// Where the session stands: which prompt comes next, with the cards
/// gathered so far.
pub enum SessionState {
    AwaitingHand,
    AwaitingFlop { hero: Vec<Card> },
    AwaitingTurn { hero: Vec<Card>, board: Vec<Card> },
    AwaitingRiver { hero: Vec<Card>, board: Vec<Card> },
    Done,
}

/// What the surrounding program is to do after a step.
pub enum StepAction {
    /// End the session.
    Quit,
    /// Show the error and prompt again.
    Reprompt { error: InputError },
    /// Move on to the next prompt without evaluating.
    Proceed,
    /// Evaluate the query and render the grid, then move on.
    Evaluate { hero: Vec<Card>, board: Vec<Card> },
}

/// The states, over mathematical card sequences.
pub enum SessionStateV {
    AwaitingHand,
    AwaitingFlop { hero: Seq<Card> },
    AwaitingTurn { hero: Seq<Card>, board: Seq<Card> },
    AwaitingRiver { hero: Seq<Card>, board: Seq<Card> },
    Done,
}

/// The actions, over mathematical card sequences.
pub enum StepActionV {
    Quit,
    Reprompt { error: InputError },
    Proceed,
    Evaluate { hero: Seq<Card>, board: Seq<Card> },
}

impl View for SessionState {
    type V = SessionStateV;

    open spec fn view(&self) -> SessionStateV {
        match self {
            SessionState::AwaitingHand => SessionStateV::AwaitingHand,
            SessionState::AwaitingFlop { hero } => SessionStateV::AwaitingFlop { hero: hero@ },
            SessionState::AwaitingTurn { hero, board } => SessionStateV::AwaitingTurn {
                hero: hero@,
                board: board@,
            },
            SessionState::AwaitingRiver { hero, board } => SessionStateV::AwaitingRiver {
                hero: hero@,
                board: board@,
            },
            SessionState::Done => SessionStateV::Done,
        }
    }
}

impl View for StepAction {
    type V = StepActionV;

    open spec fn view(&self) -> StepActionV {
        match self {
            StepAction::Quit => StepActionV::Quit,
            StepAction::Reprompt { error } => StepActionV::Reprompt { error: *error },
            StepAction::Proceed => StepActionV::Proceed,
            StepAction::Evaluate { hero, board } => StepActionV::Evaluate {
                hero: hero@,
                board: board@,
            },
        }
    }
}

/// How many cards the state's prompt asks for.
pub open spec fn spec_expected_len(s: SessionStateV) -> int {
    match s {
        SessionStateV::AwaitingHand => 2,
        SessionStateV::AwaitingFlop { .. } => 3,
        SessionStateV::AwaitingTurn { .. } => 1,
        SessionStateV::AwaitingRiver { .. } => 1,
        SessionStateV::Done => 0,
    }
}

/// One step of the session. The exit word ends the session from any prompt
/// with nothing evaluated. A malformed or wrong-length input re-prompts the
/// same field. A duplicate card sends the session back to the hand prompt.
/// A valid hand is only stored; a valid flop, turn or river extends the
/// board and asks for one evaluation of the grown query.
pub open spec fn spec_session_step(s: SessionStateV, input: Seq<u8>) -> (SessionStateV,
    StepActionV) {
    if spec_is_exit(input) {
        (SessionStateV::Done, StepActionV::Quit)
    } else {
        match s {
            SessionStateV::AwaitingHand => match spec_parse_cards(input) {
                None => (s, StepActionV::Reprompt { error: InputError::MalformedCardToken }),
                Some(cards) => if cards.len() != 2 {
                    (s, StepActionV::Reprompt { error: InputError::WrongHandLength })
                } else {
                    (SessionStateV::AwaitingFlop { hero: cards }, StepActionV::Proceed)
                },
            },
            SessionStateV::AwaitingFlop { hero } => match spec_parse_cards(input) {
                None => (s, StepActionV::Reprompt { error: InputError::MalformedCardToken }),
                Some(cards) => if cards.len() != 3 {
                    (s, StepActionV::Reprompt { error: InputError::WrongBoardLength })
                } else if !distinct_seq(hero + cards) {
                    (
                        SessionStateV::AwaitingHand,
                        StepActionV::Reprompt { error: InputError::DuplicateCard },
                    )
                } else {
                    (
                        SessionStateV::AwaitingTurn { hero, board: cards },
                        StepActionV::Evaluate { hero, board: cards },
                    )
                },
            },
            SessionStateV::AwaitingTurn { hero, board } => match spec_parse_cards(input) {
                None => (s, StepActionV::Reprompt { error: InputError::MalformedCardToken }),
                Some(cards) => if cards.len() != 1 {
                    (s, StepActionV::Reprompt { error: InputError::WrongBoardLength })
                } else if !distinct_seq(hero + (board + cards)) {
                    (
                        SessionStateV::AwaitingHand,
                        StepActionV::Reprompt { error: InputError::DuplicateCard },
                    )
                } else {
                    (
                        SessionStateV::AwaitingRiver { hero, board: board + cards },
                        StepActionV::Evaluate { hero, board: board + cards },
                    )
                },
            },
            SessionStateV::AwaitingRiver { hero, board } => match spec_parse_cards(input) {
                None => (s, StepActionV::Reprompt { error: InputError::MalformedCardToken }),
                Some(cards) => if cards.len() != 1 {
                    (s, StepActionV::Reprompt { error: InputError::WrongBoardLength })
                } else if !distinct_seq(hero + (board + cards)) {
                    (
                        SessionStateV::AwaitingHand,
                        StepActionV::Reprompt { error: InputError::DuplicateCard },
                    )
                } else {
                    (
                        SessionStateV::AwaitingHand,
                        StepActionV::Evaluate { hero, board: board + cards },
                    )
                },
            },
            SessionStateV::Done => (SessionStateV::Done, StepActionV::Quit),
        }
    }
}

/// Law: typing the exit word at any prompt ends the session at once, and no
/// evaluation is requested on the way out.
pub proof fn lemma_exit_quits(s: SessionStateV, input: Seq<u8>)
    requires
        spec_is_exit(input),
    ensures
        spec_session_step(s, input).0 == SessionStateV::Done,
        spec_session_step(s, input).1 == StepActionV::Quit,
{
}

/// Concatenate two card vectors.
fn join_cards(a: &Vec<Card>, b: &Vec<Card>) -> (r: Vec<Card>)
    ensures
        r@ == a@ + b@,
{
    let mut r = copy_cards(a);
    let mut tail = copy_cards(b);
    r.append(&mut tail);
    r
}

/// Drive the session one input forward.
pub fn session_step(state: SessionState, input: &Vec<u8>) -> (r: (SessionState, StepAction))
    ensures
        r.0@ == spec_session_step(state@, input@).0,
        r.1@ == spec_session_step(state@, input@).1,
{
    if is_exit(input) {
        return (SessionState::Done, StepAction::Quit);
    }
    match state {
        SessionState::AwaitingHand => match parse_cards(input) {
            Err(e) => (SessionState::AwaitingHand, StepAction::Reprompt { error: e }),
            Ok(cards) => {
                if cards.len() != 2 {
                    (
                        SessionState::AwaitingHand,
                        StepAction::Reprompt { error: InputError::WrongHandLength },
                    )
                } else {
                    (SessionState::AwaitingFlop { hero: cards }, StepAction::Proceed)
                }
            },
        },
        SessionState::AwaitingFlop { hero } => match parse_cards(input) {
            Err(e) => (
                SessionState::AwaitingFlop { hero },
                StepAction::Reprompt { error: e },
            ),
            Ok(cards) => {
                if cards.len() != 3 {
                    (
                        SessionState::AwaitingFlop { hero },
                        StepAction::Reprompt { error: InputError::WrongBoardLength },
                    )
                } else {
                    let joined = join_cards(&hero, &cards);
                    if !crate::parse::all_distinct(&joined) {
                        (
                            SessionState::AwaitingHand,
                            StepAction::Reprompt { error: InputError::DuplicateCard },
                        )
                    } else {
                        let hero2 = copy_cards(&hero);
                        let board2 = copy_cards(&cards);
                        (
                            SessionState::AwaitingTurn { hero, board: cards },
                            StepAction::Evaluate { hero: hero2, board: board2 },
                        )
                    }
                }
            },
        },
        SessionState::AwaitingTurn { hero, board } => match parse_cards(input) {
            Err(e) => (
                SessionState::AwaitingTurn { hero, board },
                StepAction::Reprompt { error: e },
            ),
            Ok(cards) => {
                if cards.len() != 1 {
                    (
                        SessionState::AwaitingTurn { hero, board },
                        StepAction::Reprompt { error: InputError::WrongBoardLength },
                    )
                } else {
                    let new_board = join_cards(&board, &cards);
                    let joined = join_cards(&hero, &new_board);
                    if !crate::parse::all_distinct(&joined) {
                        (
                            SessionState::AwaitingHand,
                            StepAction::Reprompt { error: InputError::DuplicateCard },
                        )
                    } else {
                        let hero2 = copy_cards(&hero);
                        let board2 = copy_cards(&new_board);
                        (
                            SessionState::AwaitingRiver { hero, board: new_board },
                            StepAction::Evaluate { hero: hero2, board: board2 },
                        )
                    }
                }
            },
        },
        SessionState::AwaitingRiver { hero, board } => match parse_cards(input) {
            Err(e) => (
                SessionState::AwaitingRiver { hero, board },
                StepAction::Reprompt { error: e },
            ),
            Ok(cards) => {
                if cards.len() != 1 {
                    (
                        SessionState::AwaitingRiver { hero, board },
                        StepAction::Reprompt { error: InputError::WrongBoardLength },
                    )
                } else {
                    let new_board = join_cards(&board, &cards);
                    let joined = join_cards(&hero, &new_board);
                    if !crate::parse::all_distinct(&joined) {
                        (
                            SessionState::AwaitingHand,
                            StepAction::Reprompt { error: InputError::DuplicateCard },
                        )
                    } else {
                        (
                            SessionState::AwaitingHand,
                            StepAction::Evaluate { hero, board: new_board },
                        )
                    }
                }
            },
        },
        SessionState::Done => (SessionState::Done, StepAction::Quit),
    }
}

} // verus!
