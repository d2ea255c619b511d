use goose::completion::CompletionCache;
use goose::extension::{Envs, ExtensionConfig, ExtensionRegistry, Prompt, PromptArgument};

fn registry() -> ExtensionRegistry {
    let mut reg = ExtensionRegistry::new();
    let p = |n: &str| Prompt {
        name: n.to_string(),
        description: None,
        arguments: vec![PromptArgument { name: "x".to_string(), description: None, required: Some(true) }],
    };
    reg.add(ExtensionConfig::Builtin { name: "a".to_string(), timeout: None }, Ok((vec![], vec![p("one"), p("two")]))).unwrap();
    reg.add(
        ExtensionConfig::Stdio { name: "b".to_string(), cmd: "c".to_string(), args: vec![], envs: Envs::new(), timeout: None },
        Ok((vec![], vec![p("two")])),
    )
    .unwrap();
    reg
}

#[test]
fn invalidating_twice_leaves_it_empty() {
    let reg = registry();
    let mut cache = CompletionCache::new();
    cache.refresh(reg.registered(), 1);
    assert_eq!(cache.prompts().len(), 2);
    cache.invalidate(2);
    assert!(cache.prompts().is_empty());
    assert!(cache.info(&"one".to_string()).is_none());
    cache.invalidate(3);
    assert!(cache.prompts().is_empty());
}

#[test]
fn refreshing_twice_gives_the_same_content() {
    let reg = registry();
    let mut cache = CompletionCache::new();
    cache.refresh(reg.registered(), 1);
    let first = cache.prompts().clone();
    cache.refresh(reg.registered(), 2);
    assert_eq!(cache.prompts(), &first);
    assert_eq!(first[0], ("a".to_string(), vec!["one".to_string(), "two".to_string()]));
    assert_eq!(first[1], ("b".to_string(), vec!["two".to_string()]));
}

#[test]
fn later_prompt_of_the_same_name_wins() {
    let reg = registry();
    let mut cache = CompletionCache::new();
    cache.refresh(reg.registered(), 1);
    let info = cache.info(&"two".to_string()).unwrap();
    assert_eq!(info.extension, Some("b".to_string()));
    assert_eq!(info.arguments.len(), 1);
    let info = cache.info(&"one".to_string()).unwrap();
    assert_eq!(info.extension, Some("a".to_string()));
}
