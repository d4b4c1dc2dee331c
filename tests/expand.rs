use prompt_dialog::expand::{expand_builtins, expand_placeholders, mentions_clipboard};
use prompt_dialog::params::ParamMap;

fn map(pairs: &[(&str, &str)]) -> ParamMap {
    let mut params = ParamMap::new();
    for (k, v) in pairs {
        params.insert(k.to_string(), v.to_string());
    }
    params
}

#[test]
fn test_expand_placeholders() {
    let params = map(&[("path", "/src/main.rs"), ("selection", "fn main()")]);
    let text = "Fix the bug in @path near @selection";
    let result = expand_placeholders(text, &params, "");
    assert_eq!(result, "Fix the bug in /src/main.rs near fn main()");
}

#[test]
fn test_expand_placeholders_no_match() {
    let params = ParamMap::new();
    let text = "No placeholders here";
    let result = expand_placeholders(text, &params, "");
    assert_eq!(result, "No placeholders here");
}

#[test]
fn test_expand_placeholders_multiple_occurrences() {
    let params = map(&[("file", "test.rs")]);
    let text = "Compare @file with @file";
    let result = expand_placeholders(text, &params, "");
    assert_eq!(result, "Compare test.rs with test.rs");
}

#[test]
fn test_expand_longest_key_first() {
    let params = map(&[("path", "short"), ("pathname", "long")]);
    let text = "Use @pathname and @path";
    let result = expand_placeholders(text, &params, "");
    assert_eq!(result, "Use long and short");
}

#[test]
fn expand_longest_key_first_whatever_the_insertion_order() {
    let params = map(&[("pathname", "long"), ("path", "short")]);
    assert_eq!(
        expand_placeholders("@pathname and @path", &params, ""),
        "long and short"
    );
    let params = map(&[("path", "short"), ("pathname", "long")]);
    assert_eq!(
        expand_placeholders("@pathname and @path", &params, ""),
        "long and short"
    );
}

#[test]
fn test_expand_clipboard_token() {
    let params = ParamMap::new();
    let text = "Paste: @clipboard";
    let result = expand_placeholders(text, &params, "copied");
    assert!(!result.contains("@clipboard"));
    assert_eq!(result, "Paste: copied");
}

#[test]
fn test_expand_clipboard_with_params() {
    let params = map(&[("file", "main.rs")]);
    let text = "Fix @file using @clipboard";
    let result = expand_placeholders(text, &params, "the snippet");
    assert!(!result.contains("@clipboard"));
    assert!(result.contains("main.rs"));
    assert_eq!(result, "Fix main.rs using the snippet");
}

#[test]
fn expand_clipboard_every_occurrence_gets_same_text() {
    assert_eq!(
        expand_builtins("@clipboard/@clipboard", "xy"),
        "xy/xy"
    );
    assert_eq!(expand_builtins("none here", "xy"), "none here");
    assert_eq!(expand_builtins("@clipboard", ""), "");
}

#[test]
fn expand_is_idempotent_without_remaining_tokens() {
    let params = map(&[("a", "one"), ("b", "two")]);
    let once = expand_placeholders("@a then @b", &params, "c");
    let twice = expand_placeholders(&once, &params, "c");
    assert_eq!(once, "one then two");
    assert_eq!(twice, once);
}

#[test]
fn expand_unknown_token_is_left() {
    let params = map(&[("a", "1")]);
    assert_eq!(expand_placeholders("@b @a", &params, ""), "@b 1");
}

#[test]
fn mentions_clipboard_detects_token() {
    assert!(mentions_clipboard("x @clipboard y"));
    assert!(!mentions_clipboard("x @clip y"));
    assert!(!mentions_clipboard(""));
}
