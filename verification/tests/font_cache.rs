use handterm::font_cache::{
    cached_font_path, emoji_font_cache_content, font_path_cache_content, parse_emoji_font_cache,
    split_lines,
};

#[test]
fn font_path_cache_roundtrips_and_replaces_existing_entries() {
    let content = font_path_cache_content("", "JetBrains Mono", "/fonts/old.ttf");
    let content = font_path_cache_content(&content, "Fira Code", "/fonts/fira.ttf");
    let content = font_path_cache_content(&content, "JetBrains Mono", "/fonts/new.ttf");
    assert_eq!(content, "Fira Code=/fonts/fira.ttf\nJetBrains Mono=/fonts/new.ttf\n");

    assert_eq!(
        cached_font_path(&content, "JetBrains Mono"),
        Some("/fonts/new.ttf".to_string())
    );
    assert_eq!(
        cached_font_path(&content, "Fira Code"),
        Some("/fonts/fira.ttf".to_string())
    );
    assert_eq!(cached_font_path(&content, "Missing"), None);
}

#[test]
fn font_path_cache_reads_first_matching_line_and_splits_at_first_equals() {
    assert_eq!(
        cached_font_path("junk\nA=x=y\r\nA=z\n", "A"),
        Some("x=y".to_string())
    );
    assert_eq!(cached_font_path("", "A"), None);
}

#[test]
fn emoji_font_cache_roundtrips_paths() {
    let paths = vec!["/fonts/emoji-a.ttf".to_string(), "/fonts/emoji-b.ttf".to_string()];
    let content = emoji_font_cache_content(&paths);
    assert_eq!(content, "emoji_fonts_v1\n/fonts/emoji-a.ttf\n/fonts/emoji-b.ttf\n");
    assert_eq!(parse_emoji_font_cache(&content), Some(paths));
}

#[test]
fn empty_emoji_font_cache_is_distinct_from_missing() {
    assert_eq!(parse_emoji_font_cache(""), None);
    let content = emoji_font_cache_content(&[]);
    assert_eq!(parse_emoji_font_cache(&content), Some(Vec::new()));
}

#[test]
fn emoji_font_cache_rejects_unknown_header() {
    assert_eq!(parse_emoji_font_cache("garbage\n/fonts/whatever.ttf\n"), None);
}

#[test]
fn emoji_font_cache_trims_and_skips_blank_lines() {
    assert_eq!(
        parse_emoji_font_cache("emoji_fonts_v1\r\n  /a.ttf \n\n\t\n/b.ttf"),
        Some(vec!["/a.ttf".to_string(), "/b.ttf".to_string()])
    );
}

#[test]
fn lines_split_like_str_lines() {
    for text in ["", "a", "a\n", "a\r\nb", "\n\nx", "a\r", "a\rb\r\n\r\n"] {
        let expected: Vec<String> = text.lines().map(|l| l.to_string()).collect();
        assert_eq!(split_lines(text), expected, "lines of {text:?}");
    }
}
