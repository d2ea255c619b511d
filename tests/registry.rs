use goose::extension::{
    is_valid_uri, read_only_tool, Envs, ExtensionConfig, ExtensionError, ExtensionRegistry, Prompt, Tool,
    DEFAULT_EXTENSION_TIMEOUT,
};
use goose::session::{Session, SessionError};

fn stdio(name: &str) -> ExtensionConfig {
    ExtensionConfig::Stdio {
        name: name.to_string(),
        cmd: "server".to_string(),
        args: vec![],
        envs: Envs::new(),
        timeout: None,
    }
}

fn tool(name: &str) -> Tool {
    Tool { name: name.to_string(), description: "d".to_string(), read_only: false }
}

fn prompt(name: &str) -> Prompt {
    Prompt { name: name.to_string(), description: Some(format!("about {}", name)), arguments: vec![] }
}

#[test]
fn colliding_stdio_extension_is_refused_before_start() {
    let mut reg = ExtensionRegistry::new();
    assert!(reg.add(stdio("files"), Ok((vec![tool("read")], vec![]))).is_ok());
    match reg.check_add(&stdio("files")) {
        Err(ExtensionError::NameCollision(n)) => assert_eq!(n, "files"),
        other => panic!("expected a collision, got {:?}", other),
    }
    match reg.add(stdio("files"), Ok((vec![], vec![]))) {
        Err(ExtensionError::NameCollision(_)) => {}
        other => panic!("expected a collision, got {:?}", other),
    }
    assert_eq!(reg.registered().len(), 1);
}

#[test]
fn remote_extension_needs_http_uri() {
    let reg = ExtensionRegistry::new();
    let bad = ExtensionConfig::Sse { name: "r".to_string(), uri: "ftp://x".to_string(), envs: Envs::new(), timeout: None };
    assert!(matches!(reg.check_add(&bad), Err(ExtensionError::InvalidUri(_))));
    let good = ExtensionConfig::Sse { name: "r".to_string(), uri: "https://x/events".to_string(), envs: Envs::new(), timeout: Some(5) };
    assert!(reg.check_add(&good).is_ok());
    assert!(is_valid_uri("http://localhost:8000/events"));
    assert!(!is_valid_uri("httpx://a"));
    assert!(!is_valid_uri(""));
}

#[test]
fn failed_handshake_is_a_transport_error() {
    let mut reg = ExtensionRegistry::new();
    match reg.add(stdio("x"), Err("spawn failed".to_string())) {
        Err(ExtensionError::Transport(e)) => assert_eq!(e, "spawn failed"),
        other => panic!("unexpected {:?}", other),
    }
    assert_eq!(reg.registered().len(), 0);
}

#[test]
fn tools_are_listed_and_routed() {
    let mut reg = ExtensionRegistry::new();
    reg.add(stdio("a"), Ok((vec![tool("t1"), tool("t2")], vec![]))).unwrap();
    reg.add(ExtensionConfig::Builtin { name: "b".to_string(), timeout: None }, Ok((vec![tool("t3")], vec![]))).unwrap();
    let names: Vec<String> = reg.list_tools().into_iter().map(|t| t.name).collect();
    assert_eq!(names, vec!["t1", "t2", "t3"]);
    assert_eq!(reg.tool_owner(&"t3".to_string()), Some("b".to_string()));
    assert_eq!(reg.tool_owner(&"t9".to_string()), None);
    let removed = reg.remove(&"a".to_string()).unwrap();
    assert_eq!(removed.config.name(), "a");
    assert!(reg.remove(&"a".to_string()).is_none());
    assert_eq!(reg.list_tools().len(), 1);
}

#[test]
fn timeouts_default() {
    assert_eq!(stdio("x").effective_timeout(), DEFAULT_EXTENSION_TIMEOUT);
    assert_eq!(ExtensionConfig::Builtin { name: "d".to_string(), timeout: Some(7) }.effective_timeout(), 7);
}

#[test]
fn read_only_detection() {
    let tools = vec![Tool { name: "ls".to_string(), description: String::new(), read_only: true }, tool("rm")];
    assert!(read_only_tool(&tools, "ls"));
    assert!(!read_only_tool(&tools, "rm"));
    assert!(!read_only_tool(&tools, "cat"));
}

#[test]
fn session_lists_prompts_with_filter() {
    let mut session = Session::new("s".to_string(), Vec::new(), false);
    session.extension_started(stdio("a"), Ok((vec![], vec![prompt("p1"), prompt("p2")])), 1).unwrap();
    session.extension_started(stdio("b"), Ok((vec![], vec![prompt("p3")])), 2).unwrap();
    let all = session.list_prompts(None).unwrap();
    assert_eq!(all.len(), 2);
    assert_eq!(all[0], ("a".to_string(), vec!["p1".to_string(), "p2".to_string()]));
    let only_b = session.list_prompts(Some("b".to_string())).unwrap();
    assert_eq!(only_b, vec![("b".to_string(), vec!["p3".to_string()])]);
    match session.list_prompts(Some("zzz".to_string())) {
        Err(SessionError::ExtensionNotFound(n)) => assert_eq!(n, "zzz"),
        other => panic!("unexpected {:?}", other),
    }
    let info = session.get_prompt_info(&"p3".to_string()).unwrap();
    assert_eq!(info.extension, Some("b".to_string()));
    assert_eq!(info.description, Some("about p3".to_string()));
    assert!(session.get_prompt_info(&"nope".to_string()).is_none());
}

#[test]
fn session_extension_command_gets_a_random_name() {
    let session = Session::new("s".to_string(), Vec::new(), false);
    match session.add_extension("API_KEY=abc npx -y server".to_string()) {
        Ok(ExtensionConfig::Stdio { name, cmd, args, envs, timeout }) => {
            assert_eq!(name.chars().count(), 8);
            assert!(name.chars().all(|c| c.is_ascii_alphanumeric()));
            assert_eq!(cmd, "npx");
            assert_eq!(args, vec!["-y", "server"]);
            assert_eq!(envs.lookup("API_KEY"), Some("abc".to_string()));
            assert_eq!(timeout, Some(DEFAULT_EXTENSION_TIMEOUT));
        }
        other => panic!("unexpected {:?}", other),
    }
    assert!(matches!(session.add_extension("A=1 B=2".to_string()), Err(SessionError::NoCommand)));
}

#[test]
fn builtins_are_split_and_trimmed() {
    let session = Session::new("s".to_string(), Vec::new(), false);
    let configs = session.add_builtin(" developer, memory ".to_string());
    let names: Vec<String> = configs.iter().map(|c| c.name().clone()).collect();
    assert_eq!(names, vec!["developer", "memory"]);
    assert!(configs.iter().all(|c| c.effective_timeout() == DEFAULT_EXTENSION_TIMEOUT));
}

#[test]
fn removing_an_extension_clears_the_index() {
    let mut session = Session::new("s".to_string(), Vec::new(), false);
    session.extension_started(stdio("a"), Ok((vec![tool("t")], vec![prompt("p")])), 1).unwrap();
    session.update_completion_cache(2);
    assert_eq!(session.completion_cache().prompts().len(), 1);
    assert!(session.remove_extension(&"a".to_string(), 3).is_some());
    assert_eq!(session.completion_cache().prompts().len(), 0);
    assert_eq!(session.tools().len(), 0);
}

#[test]
fn session_routes_tool_calls() {
    let mut session = Session::new("s".to_string(), Vec::new(), false);
    session.extension_started(stdio("a"), Ok((vec![tool("t1")], vec![])), 1).unwrap();
    session.extension_started(stdio("b"), Ok((vec![tool("t2"), tool("t1")], vec![])), 2).unwrap();
    assert_eq!(session.tool_owner(&"t1".to_string()), Some("a".to_string()));
    assert_eq!(session.tool_owner(&"t2".to_string()), Some("b".to_string()));
    assert_eq!(session.tool_owner(&"t3".to_string()), None);
    match session.extension_started(stdio("a"), Ok((vec![], vec![])), 3) {
        Err(ExtensionError::NameCollision(_)) => {}
        other => panic!("unexpected {:?}", other),
    }
}

#[test]
fn removing_keeps_the_other_extensions_in_order() {
    let mut reg = ExtensionRegistry::new();
    reg.add(stdio("a"), Ok((vec![tool("ta")], vec![]))).unwrap();
    reg.add(stdio("b"), Ok((vec![tool("tb")], vec![]))).unwrap();
    reg.add(stdio("c"), Ok((vec![tool("tc")], vec![]))).unwrap();
    let removed = reg.remove(&"b".to_string()).unwrap();
    assert_eq!(removed.tools[0].name, "tb");
    let left: Vec<(String, String)> =
        reg.registered().iter().map(|e| (e.config.name().clone(), e.tools[0].name.clone())).collect();
    assert_eq!(left, vec![("a".to_string(), "ta".to_string()), ("c".to_string(), "tc".to_string())]);
}

#[test]
fn collision_error_names_the_taken_name() {
    let mut reg = ExtensionRegistry::new();
    reg.add(stdio("dup"), Ok((vec![], vec![]))).unwrap();
    match reg.check_add(&stdio("dup")) {
        Err(ExtensionError::NameCollision(n)) => assert_eq!(n, "dup"),
        other => panic!("unexpected {:?}", other),
    }
}
