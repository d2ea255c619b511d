use goose::message::{Content, Message, Role, ToolCall, ToolError};
use goose::session::{Session, TailShape};

fn text_of(m: &Message) -> String {
    match &m.content[0] {
        Content::Text(t) => t.clone(),
        other => panic!("expected text, got {:?}", other),
    }
}

fn two_requests() -> Message {
    Message::assistant()
        .with_text("let me look")
        .with_content(Content::ToolRequest {
            id: "r1".to_string(),
            call: Ok(ToolCall { name: "read_file".to_string(), arguments: "{}".to_string() }),
        })
        .with_content(Content::ToolRequest {
            id: "r2".to_string(),
            call: Ok(ToolCall { name: "shell".to_string(), arguments: "{}".to_string() }),
        })
}

#[test]
fn cancel_during_tool_calls_answers_each_request() {
    let history = vec![Message::user().with_text("do it"), two_requests()];
    let mut session = Session::new("s.jsonl".to_string(), history, false);
    let r = session.handle_interrupted_messages(true);
    assert_eq!(r.shape, TailShape::PendingToolRequests);
    assert_eq!(r.notice, "The existing call to shell was interrupted. How would you like to proceed?");
    let h = session.message_history();
    assert_eq!(h.len(), 4);
    assert_eq!(h[2].role, Role::User);
    assert_eq!(h[2].content.len(), 2);
    for (k, id) in ["r1", "r2"].iter().enumerate() {
        match &h[2].content[k] {
            Content::ToolResponse { id: rid, result: Err(ToolError::ExecutionError(e)) } => {
                assert_eq!(rid, id);
                assert_eq!(e, "Interrupted by the user to make a correction");
            }
            other => panic!("unexpected {:?}", other),
        }
    }
    assert_eq!(h[3].role, Role::Assistant);
    assert_eq!(text_of(&h[3]), r.notice);
    // the session stays usable
    session.push_user_text("try again");
    assert_eq!(session.message_history().len(), 5);
}

#[test]
fn failure_during_tool_call_names_the_error_and_unparsed_tool() {
    let req = Message::assistant().with_content(Content::ToolRequest {
        id: "x".to_string(),
        call: Err(ToolError::InvalidParameters("bad".to_string())),
    });
    let mut session = Session::new("s.jsonl".to_string(), vec![req], false);
    let r = session.handle_interrupted_messages(false);
    assert_eq!(r.shape, TailShape::PendingToolRequests);
    assert_eq!(r.notice, "The existing call to tool was interrupted. How would you like to proceed?");
    let h = session.message_history();
    match &h[1].content[0] {
        Content::ToolResponse { result: Err(ToolError::ExecutionError(e)), .. } => {
            assert_eq!(e, "An uncaught error happened during tool use")
        }
        other => panic!("unexpected {:?}", other),
    }
}

#[test]
fn interrupted_after_tool_response_adds_a_note() {
    let resp = Message::user().with_content(Content::ToolResponse { id: "r1".to_string(), result: Ok("ok".to_string()) });
    let mut session = Session::new("s.jsonl".to_string(), vec![two_requests(), resp], false);
    let r = session.handle_interrupted_messages(true);
    assert_eq!(r.shape, TailShape::ToolResponseAwaitingReply);
    let h = session.message_history();
    assert_eq!(h.len(), 3);
    assert_eq!(h[2].role, Role::Assistant);
    assert_eq!(text_of(&h[2]), "The tool calling loop was interrupted. How would you like to proceed?");
}

#[test]
fn unanswered_user_message_is_removed() {
    let history = vec![
        Message::user().with_text("first"),
        Message::assistant().with_text("answer"),
        Message::user().with_text("second"),
    ];
    let mut session = Session::new("s.jsonl".to_string(), history, false);
    let r = session.handle_interrupted_messages(true);
    assert_eq!(r.shape, TailShape::UnansweredUserMessage);
    assert_eq!(r.notice, "Interrupted before the model replied and removed the last message.");
    let h = session.message_history();
    assert_eq!(h.len(), 2);
    assert_eq!(text_of(&h[1]), "answer");
}

#[test]
fn settled_transcript_is_left_alone() {
    let mut empty = Session::new("s.jsonl".to_string(), Vec::new(), false);
    assert_eq!(empty.handle_interrupted_messages(true).shape, TailShape::Settled);
    assert_eq!(empty.message_history().len(), 0);
    let mut done = Session::new("s.jsonl".to_string(), vec![Message::assistant().with_text("bye")], false);
    let r = done.handle_interrupted_messages(false);
    assert_eq!(r.shape, TailShape::Settled);
    assert_eq!(r.notice, "");
    assert_eq!(done.message_history().len(), 1);
}

#[test]
fn prompt_messages_must_alternate() {
    let mut session = Session::new("s.jsonl".to_string(), Vec::new(), false);
    let bad = vec![Message::user().with_text("a"), Message::user().with_text("b")];
    let e = session.append_prompt_messages(bad).unwrap_err();
    assert_eq!(e.position, 1);
    assert_eq!(e.expected, Role::Assistant);
    assert_eq!(e.found, Role::User);
    assert_eq!(session.message_history().len(), 0);
    let good = vec![Message::user().with_text("a"), Message::assistant().with_text("b"), Message::user().with_text("c")];
    assert!(session.append_prompt_messages(good).is_ok());
    assert_eq!(session.message_history().len(), 3);
}

#[test]
fn session_keeps_its_file() {
    let session = Session::new("/tmp/x.jsonl".to_string(), Vec::new(), true);
    assert_eq!(session.session_file(), "/tmp/x.jsonl");
    assert!(session.debug());
}

#[test]
fn user_message_with_more_than_a_tool_response_is_removed() {
    let mixed = Message::user()
        .with_content(Content::ToolResponse { id: "r1".to_string(), result: Ok("ok".to_string()) })
        .with_text("and also this");
    let mut session = Session::new("s.jsonl".to_string(), vec![two_requests(), mixed], false);
    let r = session.handle_interrupted_messages(true);
    assert_eq!(r.shape, TailShape::UnansweredUserMessage);
    assert_eq!(r.notice, "Interrupted before the model replied and removed the last message.");
    let h = session.message_history();
    assert_eq!(h.len(), 1);
    assert_eq!(h[0].role, Role::Assistant);
}
