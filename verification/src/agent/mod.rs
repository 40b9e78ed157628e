pub mod client;
pub mod response;
pub mod telemetry;

use vstd::prelude::*;

use crate::agent::client::{AgentClientMessage, AgentClientMessageUser};
use crate::text::{copy_str, decimal, is_blank_str, push_decimal, push_str, trim};

verus! {

/// A user message with the given content.
pub open spec fn is_user_message(m: AgentClientMessage, content: Seq<char>) -> bool {
    &&& m matches AgentClientMessage::User(u)
    &&& u.role@ == "user"@
    &&& u.content@ == content
}

/// The user message that opens every review.
pub fn initial_request() -> (m: AgentClientMessage)
    ensures
        is_user_message(m, "Please provide a code review for the changes listed in the diff"@),
{
    AgentClientMessage::User(
        AgentClientMessageUser {
            role: copy_str("user"),
            content: copy_str("Please provide a code review for the changes listed in the diff"),
        },
    )
}

/// The reminder sent when `left` turns remain.
pub open spec fn turns_left_note(left: nat) -> Seq<char> {
    "[SYSTEM NOTE]: You have "@ + decimal(left) + " turns left to complete the task"@
}

/// The note sent on the last turn.
pub open spec fn last_turn_note() -> Seq<char> {
    "[SYSTEM NOTE]: This is your last turn to complete the task. Please provide a final response."@
}

/// The notes added before turn `turn` of `max_turns`: a reminder when 5, 10
/// or 15 turns remain, then, on the last turn, the last-turn note.
pub fn turn_notes(turn: u32, max_turns: u32) -> (notes: Vec<AgentClientMessage>)
    requires
        turn <= max_turns,
    ensures
        ({
            let left = max_turns - turn;
            let reminds = left == 5 || left == 10 || left == 15;
            &&& notes@.len() == (if reminds { 1int } else { 0int }) + (if turn == max_turns {
                1int
            } else {
                0int
            })
            &&& reminds ==> is_user_message(notes@[0], turns_left_note(left as nat))
            &&& turn == max_turns ==> is_user_message(notes@.last(), last_turn_note())
        }),
{
    let mut notes: Vec<AgentClientMessage> = Vec::new();
    let left = max_turns - turn;
    if left == 5 || left == 10 || left == 15 {
        let mut text = copy_str("[SYSTEM NOTE]: You have ");
        push_decimal(&mut text, left as u128);
        push_str(&mut text, " turns left to complete the task");
        notes.push(AgentClientMessage::User(AgentClientMessageUser { role: copy_str("user"), content: text }));
    }
    if turn == max_turns {
        notes.push(
            AgentClientMessage::User(
                AgentClientMessageUser {
                    role: copy_str("user"),
                    content: copy_str(
                        "[SYSTEM NOTE]: This is your last turn to complete the task. Please provide a final response.",
                    ),
                },
            ),
        );
    }
    notes
}

/// The review to publish: the content of the final answer, unless it is
/// absent or blank.
pub fn final_review(content: Option<String>) -> (r: Option<String>)
    ensures
        match content {
            Some(c) => if trim(c@).len() == 0 {
                r is None
            } else {
                r == Some(c)
            },
            None => r is None,
        },
{
    match content {
        Some(c) => if is_blank_str(c.as_str()) {
            None
        } else {
            Some(c)
        },
        None => None,
    }
}

/// What follows a turn.
#[derive(Debug, Clone, Copy, PartialEq, Eq, Structural)]
pub enum TurnStep {
    /// Go on with this turn.
    Next(u32),
    /// The model answered without asking for tools: the review is done.
    Finished,
    /// The model still asked for tools on the last turn.
    OutOfTurns,
}

/// The step after turn `turn` of `max_turns`: done when the model did not
/// ask for tools; otherwise the next turn, or out of turns after the last.
pub fn after_turn(turn: u32, max_turns: u32, should_continue: bool) -> (r: TurnStep)
    requires
        turn <= max_turns,
        should_continue ==> turn < u32::MAX,
    ensures
        !should_continue ==> r == TurnStep::Finished,
        should_continue && turn < max_turns ==> r == TurnStep::Next((turn + 1) as u32),
        should_continue && turn == max_turns ==> r == TurnStep::OutOfTurns,
{
    if !should_continue {
        TurnStep::Finished
    } else if turn + 1 > max_turns {
        TurnStep::OutOfTurns
    } else {
        TurnStep::Next(turn + 1)
    }
}

} // verus!
