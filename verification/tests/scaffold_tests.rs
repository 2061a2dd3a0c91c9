use cairo::scaffold::{scaffold_plan, ScaffoldStep};

fn as_pairs(steps: &[ScaffoldStep]) -> Vec<(bool, String)> {
    steps
        .iter()
        .map(|s| match s {
            ScaffoldStep::Dir(p) => (true, p.clone()),
            ScaffoldStep::File(p) => (false, p.clone()),
        })
        .collect()
}

#[test]
fn scaffold_with_tags_creates_everything() {
    let steps = scaffold_plan(".", "myblog", true);
    assert_eq!(
        as_pairs(&steps),
        vec![
            (true, "./myblog".to_string()),
            (false, "./myblog/tags".to_string()),
            (true, "./myblog/posts".to_string()),
            (true, "./myblog/templates".to_string()),
            (false, "./myblog/templates/index.hbs".to_string()),
            (false, "./myblog/templates/post.hbs".to_string()),
        ]
    );
}

#[test]
fn scaffold_without_tags_skips_the_marker() {
    let steps = scaffold_plan(".", "myblog", false);
    let pairs = as_pairs(&steps);
    assert_eq!(
        pairs,
        vec![
            (true, "./myblog".to_string()),
            (true, "./myblog/posts".to_string()),
            (true, "./myblog/templates".to_string()),
            (false, "./myblog/templates/index.hbs".to_string()),
            (false, "./myblog/templates/post.hbs".to_string()),
        ]
    );
    assert!(pairs.iter().all(|(_, p)| !p.ends_with("/tags")));
}

#[test]
fn scaffold_honours_the_parent_directory() {
    let steps = scaffold_plan("/srv/www", "site", false);
    match &steps[0] {
        ScaffoldStep::Dir(p) => assert_eq!(p, "/srv/www/site"),
        _ => panic!("first step must create the project directory"),
    }
}
