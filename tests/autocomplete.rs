use prompt_dialog::autocomplete::{
    apply_autocomplete, complete_with_partial, find_autocomplete, suggest_for_partial,
};

fn names(list: &[&str]) -> Vec<String> {
    list.iter().map(|s| s.to_string()).collect()
}

#[test]
fn test_find_autocomplete_partial() {
    let placeholders = names(&["clipboard", "path"]);
    let (suggestion, visible) = find_autocomplete("hello @cl", &placeholders);
    assert!(visible);
    assert_eq!(suggestion, "@clipboard");
}

#[test]
fn test_find_autocomplete_at_only() {
    let placeholders = names(&["clipboard", "path"]);
    let (suggestion, visible) = find_autocomplete("hello @", &placeholders);
    assert!(visible);
    assert_eq!(suggestion, "@clipboard");
}

#[test]
fn test_find_autocomplete_exact_match_no_suggest() {
    let placeholders = names(&["clipboard"]);
    let (suggestion, visible) = find_autocomplete("hello @clipboard", &placeholders);
    assert!(!visible);
    assert_eq!(suggestion, "");
}

#[test]
fn test_find_autocomplete_no_at() {
    let placeholders = names(&["clipboard"]);
    let (suggestion, visible) = find_autocomplete("hello world", &placeholders);
    assert!(!visible);
    assert_eq!(suggestion, "");
}

#[test]
fn find_autocomplete_closed_token() {
    let placeholders = names(&["clipboard"]);
    assert_eq!(find_autocomplete("@cl x", &placeholders), (String::new(), false));
    assert_eq!(find_autocomplete("@cl\n", &placeholders), (String::new(), false));
}

#[test]
fn find_autocomplete_is_case_insensitive() {
    let placeholders = names(&["clipboard", "Path"]);
    assert_eq!(
        find_autocomplete("see @PA", &placeholders),
        ("@Path".to_string(), true)
    );
    assert_eq!(
        find_autocomplete("see @CLIPBOARD", &placeholders),
        (String::new(), false)
    );
}

#[test]
fn find_autocomplete_no_match_or_no_names() {
    assert_eq!(
        find_autocomplete("@zz", &names(&["clipboard"])),
        (String::new(), false)
    );
    assert_eq!(find_autocomplete("@", &names(&[])), (String::new(), false));
}

#[test]
fn suggest_for_partial_uses_lowered_names() {
    let placeholders = names(&["Alpha", "beta"]);
    let lowered = names(&["alpha", "beta"]);
    assert_eq!(
        suggest_for_partial("al", &placeholders, &lowered),
        ("@Alpha".to_string(), true)
    );
    assert_eq!(
        suggest_for_partial("", &placeholders, &lowered),
        ("@Alpha".to_string(), true)
    );
    assert_eq!(
        suggest_for_partial("beta", &placeholders, &lowered),
        (String::new(), false)
    );
}

#[test]
fn test_apply_autocomplete() {
    let placeholders = names(&["clipboard", "path"]);
    let result = apply_autocomplete("Fix @cl", &placeholders);
    assert_eq!(result, "Fix @clipboard ");
}

#[test]
fn test_apply_autocomplete_at_only() {
    let placeholders = names(&["clipboard"]);
    let result = apply_autocomplete("Fix @", &placeholders);
    assert_eq!(result, "Fix @clipboard ");
}

#[test]
fn apply_autocomplete_without_match_keeps_text() {
    let placeholders = names(&["clipboard"]);
    assert_eq!(apply_autocomplete("Fix @zz", &placeholders), "Fix @zz");
    assert_eq!(apply_autocomplete("Fix it", &placeholders), "Fix it");
    assert_eq!(apply_autocomplete("@cl done", &placeholders), "@cl done");
    assert_eq!(apply_autocomplete("a @", &names(&[])), "a @");
}

#[test]
fn apply_autocomplete_on_exact_name_adds_space() {
    let placeholders = names(&["path"]);
    assert_eq!(apply_autocomplete("x @PATH", &placeholders), "x @path ");
}

#[test]
fn complete_with_partial_uses_given_partial() {
    let placeholders = names(&["Alpha", "beta"]);
    let lowered = names(&["alpha", "beta"]);
    assert_eq!(
        complete_with_partial("go @B", "b", &placeholders, &lowered),
        "go @beta "
    );
    assert_eq!(
        complete_with_partial("go @B", "z", &placeholders, &lowered),
        "go @B"
    );
}
