use goose::context::{find_item, fit_to_budget, is_paired_from};
use goose::message::{Content, Message, ToolCall};

fn req(id: &str) -> Message {
    Message::assistant().with_content(Content::ToolRequest {
        id: id.to_string(),
        call: Ok(ToolCall { name: "t".to_string(), arguments: "{}".to_string() }),
    })
}

fn resp(id: &str) -> Message {
    Message::user().with_content(Content::ToolResponse { id: id.to_string(), result: Ok("r".to_string()) })
}

fn history() -> Vec<Message> {
    vec![Message::user().with_text("q"), req("a"), resp("a"), Message::assistant().with_text("done")]
}

#[test]
fn everything_fits_a_large_budget() {
    let out = fit_to_budget(history(), &vec![5, 5, 5, 5], 100);
    assert_eq!(out.len(), 4);
}

#[test]
fn cut_never_separates_a_request_from_its_response() {
    // the last two messages would fit (10), but they start with a response
    // whose request was cut, so the cut moves on past it
    let out = fit_to_budget(history(), &vec![5, 5, 5, 5], 12);
    assert_eq!(out.len(), 1);
    assert!(matches!(out[0].content[0], Content::Text(_)));
    let out = fit_to_budget(history(), &vec![5, 5, 5, 5], 15);
    assert_eq!(out.len(), 3);
}

#[test]
fn nothing_fits_a_zero_budget() {
    let out = fit_to_budget(history(), &vec![5, 5, 5, 5], 0);
    assert!(out.is_empty());
    let zero_sized = fit_to_budget(history(), &vec![0, 0, 0, 0], 0);
    assert_eq!(zero_sized.len(), 4);
}

#[test]
fn pending_request_is_dropped() {
    let msgs = vec![Message::user().with_text("q"), req("a")];
    let out = fit_to_budget(msgs, &vec![1, 1], 10);
    assert!(out.is_empty());
}

#[test]
fn pairing_checks() {
    let h = history();
    assert!(is_paired_from(&h, 0));
    assert!(!is_paired_from(&h, 2));
    assert!(is_paired_from(&h, 3));
    assert!(find_item(&h, 0, &"a".to_string(), true));
    assert!(!find_item(&h, 2, &"a".to_string(), true));
    assert!(find_item(&h, 2, &"a".to_string(), false));
}
