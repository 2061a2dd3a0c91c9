//! Planning a fresh project skeleton: the ordered list of directories and
//! files that `init` creates. The caller performs each step in order and
//! stops at the first failure; nothing is rolled back.

use vstd::prelude::*;
use vstd::string::*;

verus! {

/// One creation step of the scaffold: a directory or an empty file.
#[derive(Debug)]
pub enum ScaffoldStep {
    Dir(String),
    File(String),
}

/// The mathematical shadow of a `ScaffoldStep`.
pub ghost enum SpecStep {
    Dir(Seq<char>),
    File(Seq<char>),
}

impl View for ScaffoldStep {
    type V = SpecStep;

    open spec fn view(&self) -> SpecStep {
        match self {
            ScaffoldStep::Dir(p) => SpecStep::Dir(p@),
            ScaffoldStep::File(p) => SpecStep::File(p@),
        }
    }
}

impl DeepView for ScaffoldStep {
    type V = SpecStep;

    open spec fn deep_view(&self) -> SpecStep {
        self.view()
    }
}

/// Exactly what scaffolding creates, in creation order: the project
/// directory, the optional `tags` marker file, the `posts` and `templates`
/// directories, and the two empty template files.
pub open spec fn spec_scaffold_plan(
    parent: Seq<char>,
    name: Seq<char>,
    with_tags: bool,
) -> Seq<SpecStep> {
    let root = parent + "/"@ + name;
    seq![SpecStep::Dir(root)] + (if with_tags {
        seq![SpecStep::File(root + "/tags"@)]
    } else {
        Seq::<SpecStep>::empty()
    }) + seq![
        SpecStep::Dir(root + "/posts"@),
        SpecStep::Dir(root + "/templates"@),
        SpecStep::File(root + "/templates/index.hbs"@),
        SpecStep::File(root + "/templates/post.hbs"@),
    ]
}

/// Plan the scaffold of a new project under `parent`, as
/// `spec_scaffold_plan` describes. With `with_tags` false no `tags` file
/// appears; everything else is always planned, in the same order.
pub fn scaffold_plan(parent: &str, name: &str, with_tags: bool) -> (r: Vec<ScaffoldStep>)
    ensures
        r.deep_view() == spec_scaffold_plan(parent@, name@, with_tags),
{
    let root = String::from_str(parent).concat("/").concat(name);
    let mut steps: Vec<ScaffoldStep> = Vec::new();
    steps.push(ScaffoldStep::Dir(root.clone()));
    if with_tags {
        steps.push(ScaffoldStep::File(root.clone().concat("/tags")));
    }
    steps.push(ScaffoldStep::Dir(root.clone().concat("/posts")));
    steps.push(ScaffoldStep::Dir(root.clone().concat("/templates")));
    steps.push(ScaffoldStep::File(root.clone().concat("/templates/index.hbs")));
    steps.push(ScaffoldStep::File(root.concat("/templates/post.hbs")));
    proof {
        assert(steps.deep_view() =~= spec_scaffold_plan(parent@, name@, with_tags));
    }
    steps
}

} // verus!
