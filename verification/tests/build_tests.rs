use cairo::errors::CairoError;
use cairo::pipeline::{build_site, check_templates, SourceFile};

fn entry(path: &str, contents: &str) -> SourceFile {
    SourceFile { path: path.to_string(), contents: contents.to_string() }
}

fn valid(path: &str, title: &str) -> SourceFile {
    let contents = format!("{}\nMon Jan 1 10:00:00 2024\nrust web\n---\nbody of {}", title, title);
    entry(path, &contents)
}

#[test]
fn gate_demands_index_template_first() {
    let entries = vec![valid("posts/a.md", "A")];
    let r = build_site(false, true, "{{title}}", "{{title}}", &entries);
    assert_eq!(r.unwrap_err(), CairoError::CantFindIndexTemplate);
    let r2 = build_site(false, false, "", "", &entries);
    assert_eq!(r2.unwrap_err(), CairoError::CantFindIndexTemplate);
}

#[test]
fn gate_demands_post_template_second() {
    let entries = vec![valid("posts/a.md", "A")];
    let r = build_site(true, false, "{{title}}", "", &entries);
    assert_eq!(r.unwrap_err(), CairoError::CantFindPostTemplate);
}

#[test]
fn check_templates_passes_with_both() {
    assert!(check_templates(true, true).is_ok());
    assert_eq!(
        check_templates(false, true).unwrap_err(),
        CairoError::CantFindIndexTemplate
    );
    assert_eq!(
        check_templates(true, false).unwrap_err(),
        CairoError::CantFindPostTemplate
    );
}

#[test]
fn one_bad_post_blocks_the_whole_build() {
    let entries = vec![
        valid("posts/a.md", "A"),
        entry("posts/bad.md", "B\nnot a date\nx\n---\nbody"),
        valid("posts/c.md", "C"),
    ];
    let r = build_site(true, true, "{{title}}", "{{title}}", &entries);
    match r.unwrap_err() {
        CairoError::PostParseError(m) => assert!(m.starts_with("time parse: ")),
        other => panic!("unexpected error: {:?}", other),
    }
}

#[test]
fn first_parse_error_wins() {
    let entries = vec![
        entry("posts/one.md", "no delimiter here"),
        entry("posts/two.md", "B\nnot a date\nx\n---\nbody"),
    ];
    let r = build_site(true, true, "{{title}}", "{{title}}", &entries);
    assert_eq!(
        r.unwrap_err(),
        CairoError::PostParseError("Failed to parse post body".to_string())
    );
}

#[test]
fn build_renders_posts_then_index() {
    let entries = vec![valid("posts/a.md", "A"), valid("posts/b.md", "B")];
    let outs = build_site(
        true,
        true,
        "index:{{#each posts}}{{title}};{{/each}}",
        "{{title}} on {{date}}",
        &entries,
    )
    .unwrap();
    assert_eq!(outs.len(), 3);
    assert_eq!(outs[0].name, "a.html");
    assert_eq!(outs[0].contents, "A on Mon Jan 1 10:00:00 2024");
    assert_eq!(outs[1].name, "b.html");
    assert_eq!(outs[1].contents, "B on Mon Jan 1 10:00:00 2024");
    assert_eq!(outs[2].name, "index.html");
    assert_eq!(outs[2].contents, "index:A;B;");
}

#[test]
fn tags_reach_the_template_as_a_list() {
    let entries = vec![valid("posts/a.md", "A")];
    let outs = build_site(true, true, "i", "{{#each tags}}<{{this}}>{{/each}}", &entries)
        .unwrap();
    assert_eq!(outs[0].contents, "<rust><web>");
}

#[test]
fn special_characters_survive_the_context() {
    let contents = "A \"quoted\" title\\here\nMon Jan 1 10:00:00 2024\nt\n---\nline1\nline2\ttabbed";
    let entries = vec![entry("posts/q.md", contents)];
    let outs = build_site(true, true, "i", "{{title}}|{{source}}", &entries).unwrap();
    assert_eq!(outs[0].contents, "A &quot;quoted&quot; title\\here|line1\nline2\ttabbed");
}

#[test]
fn build_twice_gives_identical_output() {
    let entries = vec![valid("posts/a.md", "A"), valid("posts/b.md", "B")];
    let itpl = "index:{{#each posts}}{{title}};{{/each}}";
    let ptpl = "{{title}} on {{date}}";
    let first = build_site(true, true, itpl, ptpl, &entries).unwrap();
    let second = build_site(true, true, itpl, ptpl, &entries).unwrap();
    assert_eq!(first.len(), second.len());
    for (a, b) in first.iter().zip(second.iter()) {
        assert_eq!(a.name, b.name);
        assert_eq!(a.contents, b.contents);
    }
}

#[test]
fn engine_failure_surfaces_as_render_error() {
    let entries = vec![valid("posts/a.md", "A")];
    let r = build_site(true, true, "i", "{{#if}}", &entries);
    match r.unwrap_err() {
        CairoError::RenderError(m) => assert!(!m.is_empty()),
        other => panic!("unexpected error: {:?}", other),
    }
}

#[test]
fn empty_source_still_builds_an_index() {
    let entries: Vec<SourceFile> = Vec::new();
    let outs = build_site(true, true, "none{{#each posts}} {{title}}{{/each}}", "{{title}}", &entries)
        .unwrap();
    assert_eq!(outs.len(), 1);
    assert_eq!(outs[0].name, "index.html");
    assert_eq!(outs[0].contents, "none");
}
