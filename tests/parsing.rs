use goose::command::{builtin_names, parse_extension_command, split_command, split_on, split_words, trim, CommandError};
use goose::extension::{ExtensionConfig, DEFAULT_EXTENSION_TIMEOUT};

#[test]
fn words_split_at_any_white_space() {
    assert_eq!(split_words("  a\tbb   c \n"), vec!["a", "bb", "c"]);
    assert!(split_words("").is_empty());
    assert!(split_words("   ").is_empty());
}

#[test]
fn extension_command_sets_envs_then_command() {
    match parse_extension_command("FOO=bar URL=a=b  npx -y @scope/server", "ext".to_string()) {
        Ok(ExtensionConfig::Stdio { name, cmd, args, envs, timeout }) => {
            assert_eq!(name, "ext");
            assert_eq!(cmd, "npx");
            assert_eq!(args, vec!["-y", "@scope/server"]);
            assert_eq!(envs.lookup("FOO"), Some("bar".to_string()));
            assert_eq!(envs.lookup("URL"), Some("a=b".to_string()));
            assert_eq!(envs.lookup("npx"), None);
            assert_eq!(timeout, Some(DEFAULT_EXTENSION_TIMEOUT));
        }
        other => panic!("unexpected {:?}", other),
    }
}

#[test]
fn later_env_setting_wins() {
    match parse_extension_command("K=1 K=2 run", "e".to_string()) {
        Ok(ExtensionConfig::Stdio { envs, args, .. }) => {
            assert_eq!(envs.lookup("K"), Some("2".to_string()));
            assert!(args.is_empty());
        }
        other => panic!("unexpected {:?}", other),
    }
}

#[test]
fn command_after_env_may_hold_equals_in_args() {
    match parse_extension_command("cmd --opt=1", "e".to_string()) {
        Ok(ExtensionConfig::Stdio { cmd, args, envs, .. }) => {
            assert_eq!(cmd, "cmd");
            assert_eq!(args, vec!["--opt=1"]);
            assert_eq!(envs.pairs().len(), 0);
        }
        other => panic!("unexpected {:?}", other),
    }
}

#[test]
fn only_envs_is_no_command() {
    assert!(matches!(parse_extension_command("A=1 B=2", "e".to_string()), Err(CommandError::NoCommand)));
    assert!(matches!(parse_extension_command("   ", "e".to_string()), Err(CommandError::NoCommand)));
}

#[test]
fn command_line_split_into_command_and_args() {
    let (cmd, args) = split_command("npx -y  @block/gdrive");
    assert_eq!(cmd, "npx");
    assert_eq!(args, vec!["-y", "@block/gdrive"]);
    let (cmd, args) = split_command("");
    assert_eq!(cmd, "");
    assert!(args.is_empty());
}

#[test]
fn builtin_list_keeps_empty_pieces() {
    assert_eq!(builtin_names("developer, memory ,"), vec!["developer", "memory", ""]);
    assert_eq!(builtin_names("developer"), vec!["developer"]);
    assert_eq!(builtin_names(""), vec![""]);
}

#[test]
fn trim_drops_surrounding_white_space() {
    assert_eq!(trim(" \t a b \n"), "a b");
    assert_eq!(trim("   "), "");
    assert_eq!(trim("x"), "x");
    assert_eq!(trim("\u{3000}wide\u{3000}"), "wide");
}

#[test]
fn split_on_separator() {
    assert_eq!(split_on("a\nb\n", '\n'), vec!["a", "b", ""]);
    assert_eq!(split_on("", ','), vec![""]);
}
