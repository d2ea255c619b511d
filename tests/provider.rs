use goose::provider::{contains, tools_supported, tools_supported_lowercase};
use goose::session::Theme;

#[test]
fn substring_search() {
    assert!(contains("models/gemini-2.0-flash-lite", "gemini-2.0-flash"));
    assert!(contains("abc", ""));
    assert!(!contains("", "a"));
    assert!(!contains("gemini-1.5-pro", "gemini-2.0"));
}

#[test]
fn some_gemini_models_get_no_tools() {
    assert!(!tools_supported("gemini-2.0-flash"));
    assert!(!tools_supported("Models/Gemini-2.0-Pro-Exp-02-05"));
    assert!(tools_supported("gemini-1.5-pro-latest"));
    assert!(tools_supported_lowercase("gemini-1.5-flash"));
    assert!(!tools_supported_lowercase("gemini-2.0-flash-thinking-exp-01-21"));
    // the lower-cased form is what decides
    assert!(tools_supported_lowercase("GEMINI-2.0-FLASH"));
    assert!(!tools_supported("GEMINI-2.0-FLASH"));
}

#[test]
fn theme_cycles() {
    assert_eq!(Theme::Light.next(), Theme::Dark);
    assert_eq!(Theme::Dark.next(), Theme::Ansi);
    assert_eq!(Theme::Ansi.next(), Theme::Light);
}
