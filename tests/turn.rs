use goose::extension::Tool;
use goose::message::{Content, Message, Role, ToolCall, ToolError};
use goose::permission::{Mode, PermissionStore};
use goose::reply::{Action, Phase, Reply};
use goose::session::{Persist, Session};

fn tool(name: &str, read_only: bool) -> Tool {
    Tool { name: name.to_string(), description: String::new(), read_only }
}

fn request(id: &str, name: &str) -> Message {
    Message::assistant().with_content(Content::ToolRequest {
        id: id.to_string(),
        call: Ok(ToolCall { name: name.to_string(), arguments: "{}".to_string() }),
    })
}

#[test]
fn hello_gives_two_messages_persisted_twice() {
    let mut session = Session::new("s.jsonl".to_string(), Vec::new(), false);
    let mut persists = 0;
    let p = session.push_user_text("hello");
    assert_eq!(p, Persist::WithDescription);
    persists += 1;
    let mut turn = Reply::new(Mode::Approve, vec![], PermissionStore::new());
    assert!(matches!(turn.start(), Action::CallModel));
    let reply = Message::assistant().with_text("hi there");
    let a = turn.on_model_reply(reply);
    let msg = match a {
        Action::Yield(m) => m,
        other => panic!("unexpected {:?}", other),
    };
    assert_eq!(session.commit(msg), Some(Persist::Plain));
    persists += 1;
    assert!(matches!(turn.resume(), Action::Finish));
    assert_eq!(turn.current_phase(), Phase::Done);
    let history = session.message_history();
    assert_eq!(history.len(), 2);
    assert_eq!(history[0].role, Role::User);
    assert_eq!(history[1].role, Role::Assistant);
    assert_eq!(persists, 2);
}

#[test]
fn read_only_tool_runs_without_confirmation_in_approve_mode() {
    let mut session = Session::new("s.jsonl".to_string(), Vec::new(), false);
    session.push_user_text("read it");
    let mut turn = Reply::new(Mode::Approve, vec![tool("read_file", true)], PermissionStore::new());
    turn.start();
    let msg = match turn.on_model_reply(request("call-1", "read_file")) {
        Action::Yield(m) => m,
        other => panic!("unexpected {:?}", other),
    };
    session.commit(msg);
    match turn.resume() {
        Action::CallTool { id, call } => {
            assert_eq!(id, "call-1");
            assert_eq!(call.name, "read_file");
        }
        other => panic!("expected a tool call, got {:?}", other),
    }
    let msg = match turn.on_tool_result(Ok("file contents".to_string())) {
        Action::Yield(m) => m,
        other => panic!("unexpected {:?}", other),
    };
    assert_eq!(msg.role, Role::User);
    assert_eq!(msg.content.len(), 1);
    match &msg.content[0] {
        Content::ToolResponse { id, result: Ok(text) } => {
            assert_eq!(id, "call-1");
            assert_eq!(text, "file contents");
        }
        other => panic!("unexpected {:?}", other),
    }
    session.commit(msg);
    assert!(matches!(turn.resume(), Action::CallModel));
    assert_eq!(turn.current_phase(), Phase::Calling);
    assert_eq!(session.message_history().len(), 3);
}

#[test]
fn other_tool_needs_confirmation_and_denial_is_recorded_as_error() {
    let mut turn = Reply::new(Mode::Approve, vec![tool("shell", false)], PermissionStore::new());
    turn.start();
    turn.on_model_reply(request("c7", "shell"));
    match turn.resume() {
        Action::Confirm { id, call } => {
            assert_eq!(id, "c7");
            assert_eq!(call.name, "shell");
        }
        other => panic!("expected a confirmation, got {:?}", other),
    }
    assert_eq!(turn.current_phase(), Phase::AwaitingConfirmation);
    // a decision on another id is ignored
    assert!(matches!(turn.on_decision("other", true), Action::Wait));
    assert_eq!(turn.current_phase(), Phase::AwaitingConfirmation);
    let msg = match turn.on_decision("c7", false) {
        Action::Yield(m) => m,
        other => panic!("unexpected {:?}", other),
    };
    match &msg.content[0] {
        Content::ToolResponse { id, result: Err(ToolError::ExecutionError(note)) } => {
            assert_eq!(id, "c7");
            assert_eq!(note, "The user declined to run this tool.");
        }
        other => panic!("expected a denial, got {:?}", other),
    }
    let perms = turn.into_permissions();
    assert!(!perms.approved("shell"));
}

#[test]
fn approval_is_remembered_for_the_next_call() {
    let mut turn = Reply::new(Mode::Approve, vec![tool("shell", false)], PermissionStore::new());
    turn.start();
    turn.on_model_reply(request("a", "shell"));
    assert!(matches!(turn.resume(), Action::Confirm { .. }));
    assert!(matches!(turn.on_decision("a", true), Action::CallTool { .. }));
    turn.on_tool_result(Ok("done".to_string()));
    assert!(matches!(turn.resume(), Action::CallModel));
    turn.on_model_reply(request("b", "shell"));
    assert!(matches!(turn.resume(), Action::CallTool { .. }));
}

#[test]
fn chat_mode_never_calls_tools() {
    let mut turn = Reply::new(Mode::Chat, vec![tool("read_file", true)], PermissionStore::new());
    turn.start();
    turn.on_model_reply(request("x", "read_file"));
    match turn.resume() {
        Action::Yield(m) => match &m.content[0] {
            Content::ToolResponse { id, result: Err(ToolError::ExecutionError(note)) } => {
                assert_eq!(id, "x");
                assert_eq!(note, "Tool calls are disabled in chat mode; the call was skipped.");
            }
            other => panic!("unexpected {:?}", other),
        },
        other => panic!("expected the skipped response, got {:?}", other),
    }
}

#[test]
fn auto_mode_never_asks() {
    let mut turn = Reply::new(Mode::Auto, vec![tool("shell", false)], PermissionStore::new());
    turn.start();
    turn.on_model_reply(request("x", "shell"));
    assert!(matches!(turn.resume(), Action::CallTool { .. }));
}

#[test]
fn unparsable_call_is_answered_with_its_error() {
    let mut turn = Reply::new(Mode::Auto, vec![], PermissionStore::new());
    turn.start();
    let bad = Message::assistant().with_content(Content::ToolRequest {
        id: "bad".to_string(),
        call: Err(ToolError::InvalidParameters("not json".to_string())),
    });
    turn.on_model_reply(bad);
    match turn.resume() {
        Action::Yield(m) => match &m.content[0] {
            Content::ToolResponse { id, result: Err(ToolError::InvalidParameters(e)) } => {
                assert_eq!(id, "bad");
                assert_eq!(e, "not json");
            }
            other => panic!("unexpected {:?}", other),
        },
        other => panic!("unexpected {:?}", other),
    }
}

#[test]
fn provider_error_fails_the_turn() {
    let mut turn = Reply::new(Mode::Auto, vec![], PermissionStore::new());
    turn.start();
    match turn.on_provider_error("boom".to_string()) {
        Action::Fail(e) => assert_eq!(e, "boom"),
        other => panic!("unexpected {:?}", other),
    }
    assert_eq!(turn.current_phase(), Phase::Failed);
}

#[test]
fn confirmation_messages_are_not_committed() {
    let mut session = Session::new("s.jsonl".to_string(), Vec::new(), false);
    let m = Message::assistant().with_content(Content::ToolConfirmationRequest {
        id: "1".to_string(),
        call: ToolCall { name: "shell".to_string(), arguments: "{}".to_string() },
    });
    assert_eq!(session.commit(m), None);
    assert_eq!(session.message_history().len(), 0);
}
