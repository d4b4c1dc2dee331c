use prompt_dialog::params::{parse_params, placeholder_names, ParamMap};

#[test]
fn test_parse_params() {
    let raw = vec![
        "path=/src/main.rs".to_string(),
        "selection=some code".to_string(),
    ];
    let params = parse_params(&raw);
    assert_eq!(params.get("path").unwrap(), "/src/main.rs");
    assert_eq!(params.get("selection").unwrap(), "some code");
}

#[test]
fn test_parse_params_empty() {
    let params = parse_params(&[]);
    assert!(params.is_empty());
}

#[test]
fn test_parse_params_invalid() {
    let raw = vec!["noequals".to_string(), "=nokey".to_string()];
    let params = parse_params(&raw);
    assert!(params.is_empty());
}

#[test]
fn test_parse_params_value_with_equals() {
    let raw = vec!["query=a=b=c".to_string()];
    let params = parse_params(&raw);
    assert_eq!(params.get("query").unwrap(), "a=b=c");
}

#[test]
fn parse_params_trims_key_and_value() {
    let raw = vec!["  path =  /tmp/x  ".to_string(), " \t= blank".to_string()];
    let params = parse_params(&raw);
    assert_eq!(params.len(), 1);
    assert_eq!(params.get("path").unwrap(), "/tmp/x");
    assert!(params.get("path ").is_none());
}

#[test]
fn parse_params_later_value_wins() {
    let raw = vec![
        "a=1".to_string(),
        "b=2".to_string(),
        "a=3".to_string(),
    ];
    let params = parse_params(&raw);
    assert_eq!(params.len(), 2);
    assert_eq!(params.get("a").unwrap(), "3");
    let (k, v) = params.entry(0);
    assert_eq!((k.as_str(), v.as_str()), ("a", "3"));
    let (k, v) = params.entry(1);
    assert_eq!((k.as_str(), v.as_str()), ("b", "2"));
}

#[test]
fn parse_params_empty_value_is_kept() {
    let params = parse_params(&["key=".to_string()]);
    assert_eq!(params.get("key").unwrap(), "");
}

#[test]
fn param_map_insert_and_get() {
    let mut params = ParamMap::new();
    assert!(params.is_empty());
    params.insert("x".to_string(), "1".to_string());
    params.insert("x".to_string(), "2".to_string());
    assert_eq!(params.len(), 1);
    assert_eq!(params.get("x").unwrap(), "2");
    assert!(params.get("y").is_none());
}

#[test]
fn placeholder_names_clipboard_then_sorted_keys() {
    let raw = vec![
        "zeta=1".to_string(),
        "alpha=2".to_string(),
        "Beta=3".to_string(),
        "alphabet=4".to_string(),
    ];
    let names = placeholder_names(&parse_params(&raw));
    assert_eq!(names, vec!["clipboard", "Beta", "alpha", "alphabet", "zeta"]);
    assert_eq!(placeholder_names(&ParamMap::new()), vec!["clipboard"]);
}
