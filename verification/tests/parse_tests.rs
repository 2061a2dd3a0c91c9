use cairo::post::{parse_post, post_text, base_name, file_stem};
use cairo::errors::CairoError;

#[test]
fn example_post_parses() {
    let text = "Hello\nMon Jan 1 10:00:00 2024\nrust systems\n---\nBody text";
    let p = parse_post(text, "posts/hello.txt").unwrap();
    assert_eq!(p.title, "Hello");
    assert_eq!(p.date_text, "Mon Jan 1 10:00:00 2024");
    assert_eq!(p.tags, vec!["rust".to_string(), "systems".to_string()]);
    assert_eq!(p.source, "Body text");
    assert_eq!(p.path, "posts/hello.txt");
    assert_eq!(p.filename, "hello.txt");
}

#[test]
fn date_becomes_timestamp() {
    let text = "Hello\nMon Jan 1 10:00:00 2024\nrust systems\n---\nBody text";
    let p = parse_post(text, "posts/hello.txt").unwrap();
    assert_eq!(p.date, 1704103200);
}

#[test]
fn wrong_date_format_is_rejected() {
    let text = "Hello\n2024-01-02\nrust systems\n---\nBody text";
    let e = parse_post(text, "p").unwrap_err();
    match &e {
        CairoError::PostParseError(m) => assert!(m.starts_with("time parse: ")),
        other => panic!("unexpected error: {:?}", other),
    }
    assert!(e.message().starts_with("post parse error — time parse: "));
}

#[test]
fn inconsistent_weekday_is_rejected() {
    let text = "Hello\nTue Jan 1 10:00:00 2024\nrust systems\n---\nBody text";
    let e = parse_post(text, "p").unwrap_err();
    match e {
        CairoError::PostParseError(m) => assert!(m.starts_with("time parse: ")),
        other => panic!("unexpected error: {:?}", other),
    }
}

#[test]
fn missing_delimiter_is_rejected() {
    let e = parse_post("Hello\nMon Jan 1 10:00:00 2024\nrust", "p").unwrap_err();
    assert_eq!(
        e,
        CairoError::PostParseError("Failed to parse post body".to_string())
    );
    assert_eq!(e.message(), "post parse error — Failed to parse post body");
}

#[test]
fn missing_tags_line_is_rejected() {
    let e = parse_post("Hello\nMon Jan 1 10:00:00 2024\n---\nBody", "p").unwrap_err();
    assert_eq!(e, CairoError::PostParseError("Failed to parse tags".to_string()));
}

#[test]
fn missing_date_line_is_rejected() {
    let e = parse_post("Hello\n---\nBody", "p").unwrap_err();
    assert_eq!(
        e,
        CairoError::PostParseError("Failed to parse date string".to_string())
    );
}

#[test]
fn empty_title_is_rejected() {
    let e = parse_post("\nMon Jan 1 10:00:00 2024\nrust\n---\nBody", "p").unwrap_err();
    assert_eq!(
        e,
        CairoError::PostParseError("Failed to parse title string".to_string())
    );
}

#[test]
fn body_keeps_later_delimiters() {
    let text = "T\nMon Jan 1 10:00:00 2024\na b\n---\nfirst\n---\nsecond";
    let p = parse_post(text, "p").unwrap();
    assert_eq!(p.source, "first\n---\nsecond");
}

#[test]
fn round_trip_reproduces_source() {
    let text = "Hello\nMon Jan 1 10:00:00 2024\nrust systems\n---\nBody text\nwith lines";
    let p = parse_post(text, "p").unwrap();
    assert_eq!(post_text(&p), text);
}

#[test]
fn tags_split_on_single_spaces() {
    let text = "T\nMon Jan 1 10:00:00 2024\na  b\n---\nx";
    let p = parse_post(text, "p").unwrap();
    assert_eq!(p.tags, vec!["a".to_string(), "".to_string(), "b".to_string()]);
}

#[test]
fn filename_falls_back_to_sentinel() {
    assert_eq!(base_name("posts/"), "missing-filename");
    assert_eq!(base_name(""), "missing-filename");
    assert_eq!(base_name("a/b/c.md"), "c.md");
    assert_eq!(base_name("plain.md"), "plain.md");
}

#[test]
fn stem_drops_only_the_last_extension() {
    assert_eq!(file_stem("hello.md"), "hello");
    assert_eq!(file_stem("a.b.c"), "a.b");
    assert_eq!(file_stem("noext"), "noext");
    assert_eq!(file_stem(".hidden"), ".hidden");
}
