use code_review_agent::agent::client::AgentClientMessage;
use code_review_agent::agent::{after_turn, final_review, initial_request, turn_notes, TurnStep};
use code_review_agent::tools::get_commit_diff::GetCommitDiffTool;
use code_review_agent::tools::{not_a_directory_message, outside_boundary_message};

fn user_text(m: &AgentClientMessage) -> &str {
    match m {
        AgentClientMessage::User(u) => {
            assert_eq!(u.role, "user");
            &u.content
        }
        _ => panic!("expected a user message"),
    }
}

#[test]
fn first_request_asks_for_a_review() {
    assert_eq!(
        user_text(&initial_request()),
        "Please provide a code review for the changes listed in the diff"
    );
}

#[test]
fn reminders_come_at_fifteen_ten_and_five_turns_left() {
    assert!(turn_notes(1, 50).is_empty());
    let notes = turn_notes(35, 50);
    assert_eq!(notes.len(), 1);
    assert_eq!(user_text(&notes[0]), "[SYSTEM NOTE]: You have 15 turns left to complete the task");
    assert_eq!(user_text(&turn_notes(45, 50)[0]), "[SYSTEM NOTE]: You have 5 turns left to complete the task");
    let last = turn_notes(50, 50);
    assert_eq!(last.len(), 1);
    assert_eq!(
        user_text(&last[0]),
        "[SYSTEM NOTE]: This is your last turn to complete the task. Please provide a final response."
    );
    assert_eq!(turn_notes(5, 10).len(), 1);
    assert_eq!(turn_notes(0, 5).len(), 1);
}

#[test]
fn blank_reviews_are_not_published() {
    assert_eq!(final_review(None), None);
    assert_eq!(final_review(Some(" \n".to_string())), None);
    assert_eq!(final_review(Some("ok".to_string())), Some("ok".to_string()));
}

#[test]
fn tool_messages() {
    assert_eq!(GetCommitDiffTool::summary("abc"), "get_commit_diff: abc");
    assert_eq!(GetCommitDiffTool::new().required_parameters(), vec!["commit_id"]);
    assert_eq!(
        outside_boundary_message("../x"),
        "The subdirectory '../x' is outside of the current directory boundary."
    );
    assert_eq!(not_a_directory_message("f"), "'f' is not a directory");
}

#[test]
fn turns_end_when_the_model_stops_or_turns_run_out() {
    assert_eq!(after_turn(3, 20, false), TurnStep::Finished);
    assert_eq!(after_turn(3, 20, true), TurnStep::Next(4));
    assert_eq!(after_turn(20, 20, true), TurnStep::OutOfTurns);
    assert_eq!(after_turn(20, 20, false), TurnStep::Finished);
}
