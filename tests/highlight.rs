use prompt_dialog::highlight::build_highlight_text;

#[test]
fn test_build_highlight_text() {
    let placeholders = vec!["path".to_string(), "clipboard".to_string()];
    let text = "Fix @path and @clipboard now";
    let result = build_highlight_text(text, &placeholders);
    assert_eq!(result, "    @path     @clipboard    ");
}

#[test]
fn test_build_highlight_preserves_newlines() {
    let placeholders = vec!["file".to_string()];
    let text = "hello\n@file";
    let result = build_highlight_text(text, &placeholders);
    assert_eq!(result, "     \n@file");
}

#[test]
fn highlight_respects_word_boundary() {
    let placeholders = vec!["path".to_string()];
    assert_eq!(build_highlight_text("@pathname", &placeholders), "         ");
    assert_eq!(build_highlight_text("@path_x", &placeholders), "       ");
    assert_eq!(build_highlight_text("@path.", &placeholders), "@path ");
}

#[test]
fn highlight_overlapping_names_mark_whole_span() {
    let placeholders = vec!["path".to_string(), "pathname".to_string()];
    assert_eq!(build_highlight_text("@pathname!", &placeholders), "@pathname ");
}

#[test]
fn highlight_length_matches_input() {
    let placeholders = vec!["a".to_string()];
    for text in ["", "@a", "héllo @a wörld", "\n\n@a\n", "@@a"] {
        let result = build_highlight_text(text, &placeholders);
        assert_eq!(result.chars().count(), text.chars().count());
    }
    assert_eq!(build_highlight_text("@@a", &placeholders), " @a");
}
