//! The build pipeline: gate on the two required templates, parse every
//! source post failing fast on the first bad one, render each post and
//! then the index, and hand back the full set of output files. Nothing is
//! written unless every step succeeded.

use vstd::prelude::*;
use vstd::string::*;
use crate::errors::{CairoError, SpecError};
use crate::post::{
    Post, SpecPost, spec_parse, parse_post, spec_stem, file_stem,
};
use crate::json::{spec_post_context, spec_index_context, post_context, index_context};
use crate::render::{render_text, render_template};

verus! {

/// One source post handed to the pipeline: where it came from and what
/// it holds.
#[derive(Debug)]
pub struct SourceFile {
    pub path: String,
    pub contents: String,
}

/// The mathematical shadow of a `SourceFile`.
pub ghost struct SpecSourceFile {
    pub path: Seq<char>,
    pub contents: Seq<char>,
}

impl View for SourceFile {
    type V = SpecSourceFile;

    open spec fn view(&self) -> SpecSourceFile {
        SpecSourceFile { path: self.path@, contents: self.contents@ }
    }
}

impl DeepView for SourceFile {
    type V = SpecSourceFile;

    open spec fn deep_view(&self) -> SpecSourceFile {
        self.view()
    }
}

/// One rendered output file: its name under the build directory and its
/// full text.
#[derive(Debug)]
pub struct OutFile {
    pub name: String,
    pub contents: String,
}

/// The mathematical shadow of an `OutFile`.
pub ghost struct SpecOutFile {
    pub name: Seq<char>,
    pub contents: Seq<char>,
}

impl View for OutFile {
    type V = SpecOutFile;

    open spec fn view(&self) -> SpecOutFile {
        SpecOutFile { name: self.name@, contents: self.contents@ }
    }
}

impl DeepView for OutFile {
    type V = SpecOutFile;

    open spec fn deep_view(&self) -> SpecOutFile {
        self.view()
    }
}

/// The precondition check on the two required templates: the index
/// template is demanded first, then the post template; only then may any
/// work begin.
pub open spec fn spec_check_templates(index_exists: bool, post_exists: bool) -> Result<
    (),
    SpecError,
> {
    if !index_exists {
        Err(SpecError::CantFindIndexTemplate)
    } else if !post_exists {
        Err(SpecError::CantFindPostTemplate)
    } else {
        Ok(())
    }
}

/// Check that both required templates were found, index first.
pub fn check_templates(index_exists: bool, post_exists: bool) -> (r: Result<(), CairoError>)
    ensures
        r is Ok <==> spec_check_templates(index_exists, post_exists) is Ok,
        r is Err ==> r->Err_0@ == spec_check_templates(index_exists, post_exists)->Err_0,
{
    if !index_exists {
        Err(CairoError::CantFindIndexTemplate)
    } else if !post_exists {
        Err(CairoError::CantFindPostTemplate)
    } else {
        Ok(())
    }
}

/// Parse every source file in order; the first failure wins and no
/// partial list survives.
pub open spec fn spec_parse_all(entries: Seq<SpecSourceFile>) -> Result<Seq<SpecPost>, Seq<char>>
    decreases entries.len(),
{
    if entries.len() == 0 {
        Ok(Seq::<SpecPost>::empty())
    } else {
        match spec_parse(entries[0].contents, entries[0].path) {
            Err(m) => Err(m),
            Ok(p) => match spec_parse_all(entries.drop_first()) {
                Err(m) => Err(m),
                Ok(ps) => Ok(seq![p] + ps),
            },
        }
    }
}

/// The output name a post renders to: its file name without extension,
/// with `.html` appended.
pub open spec fn spec_out_name(filename: Seq<char>) -> Seq<char> {
    spec_stem(filename) + ".html"@
}

/// Render every post through the post template, in order; the first
/// engine failure wins.
pub open spec fn spec_render_posts(ptpl: Seq<char>, posts: Seq<SpecPost>) -> Result<
    Seq<SpecOutFile>,
    Seq<char>,
>
    decreases posts.len(),
{
    if posts.len() == 0 {
        Ok(Seq::<SpecOutFile>::empty())
    } else {
        match render_text(ptpl, spec_post_context(posts[0])) {
            Err(m) => Err(m),
            Ok(txt) => match spec_render_posts(ptpl, posts.drop_first()) {
                Err(m) => Err(m),
                Ok(os) => Ok(
                    seq![SpecOutFile { name: spec_out_name(posts[0].filename), contents: txt }]
                        + os,
                ),
            },
        }
    }
}

/// The whole pipeline as a function of its inputs: gate, parse all
/// (fail fast), render each post, render the index last. An error at any
/// step is the build's only outcome — no output files accompany it.
pub open spec fn spec_build(
    index_exists: bool,
    post_exists: bool,
    itpl: Seq<char>,
    ptpl: Seq<char>,
    entries: Seq<SpecSourceFile>,
) -> Result<Seq<SpecOutFile>, SpecError> {
    if !index_exists {
        Err(SpecError::CantFindIndexTemplate)
    } else if !post_exists {
        Err(SpecError::CantFindPostTemplate)
    } else {
        match spec_parse_all(entries) {
            Err(m) => Err(SpecError::PostParseError(m)),
            Ok(posts) => match spec_render_posts(ptpl, posts) {
                Err(m) => Err(SpecError::RenderError(m)),
                Ok(outs) => match render_text(itpl, spec_index_context(posts)) {
                    Err(m) => Err(SpecError::RenderError(m)),
                    Ok(idx) => Ok(
                        outs.push(SpecOutFile { name: "index.html"@, contents: idx }),
                    ),
                },
            },
        }
    }
}

/// Parsing a list whose first `i` entries parse cleanly reduces to
/// parsing the rest, with the clean posts in front.
#[verifier::rlimit(60)]
proof fn lemma_parse_all_split(entries: Seq<SpecSourceFile>, i: int)
    requires
        0 <= i <= entries.len(),
        forall|j: int| 0 <= j < i
            ==> spec_parse((#[trigger] entries[j]).contents, entries[j].path) is Ok,
    ensures
        spec_parse_all(entries) == match spec_parse_all(entries.subrange(i, entries.len() as int)) {
            Err(m) => Err::<Seq<SpecPost>, Seq<char>>(m),
            Ok(ps) => Ok(
                Seq::new(i as nat, |j: int| spec_parse(entries[j].contents, entries[j].path)->Ok_0)
                    + ps,
            ),
        },
    decreases i,
{
    if i == 0 {
        assert(entries.subrange(0, entries.len() as int) =~= entries);
        match spec_parse_all(entries) {
            Err(m) => {},
            Ok(ps) => {
                assert(Seq::new(0, |j: int| spec_parse(entries[j].contents, entries[j].path)->Ok_0)
                    + ps =~= ps);
            },
        }
    } else {
        assert(entries.len() > 0);
        assert(spec_parse(entries[0].contents, entries[0].path) is Ok);
        let rest = entries.drop_first();
        assert(forall|j: int| 0 <= j < i - 1
            ==> spec_parse((#[trigger] rest[j]).contents, rest[j].path) is Ok) by {
            assert(forall|j: int| 0 <= j < rest.len() ==> rest[j] == entries[j + 1]);
        }
        lemma_parse_all_split(rest, i - 1);
        assert(rest.subrange(i - 1, rest.len() as int)
            =~= entries.subrange(i, entries.len() as int));
        let p0 = spec_parse(entries[0].contents, entries[0].path)->Ok_0;
        match spec_parse_all(entries.subrange(i, entries.len() as int)) {
            Err(m) => {},
            Ok(ps) => {
                let front = Seq::new(i as nat,
                    |j: int| spec_parse(entries[j].contents, entries[j].path)->Ok_0);
                let front_rest = Seq::new((i - 1) as nat,
                    |j: int| spec_parse(rest[j].contents, rest[j].path)->Ok_0);
                assert(seq![p0] + (front_rest + ps) =~= front + ps);
            },
        }
    }
}

/// Rendering a list whose first `i` posts render cleanly reduces to
/// rendering the rest, with the clean outputs in front.
#[verifier::rlimit(60)]
proof fn lemma_render_split(ptpl: Seq<char>, posts: Seq<SpecPost>, i: int)
    requires
        0 <= i <= posts.len(),
        forall|j: int| 0 <= j < i
            ==> render_text(ptpl, spec_post_context(#[trigger] posts[j])) is Ok,
    ensures
        spec_render_posts(ptpl, posts) == match spec_render_posts(
            ptpl,
            posts.subrange(i, posts.len() as int),
        ) {
            Err(m) => Err::<Seq<SpecOutFile>, Seq<char>>(m),
            Ok(os) => Ok(
                Seq::new(i as nat, |j: int| SpecOutFile {
                    name: spec_out_name(posts[j].filename),
                    contents: render_text(ptpl, spec_post_context(posts[j]))->Ok_0,
                }) + os,
            ),
        },
    decreases i,
{
    if i == 0 {
        assert(posts.subrange(0, posts.len() as int) =~= posts);
        match spec_render_posts(ptpl, posts) {
            Err(m) => {},
            Ok(os) => {
                assert(Seq::new(0, |j: int| SpecOutFile {
                    name: spec_out_name(posts[j].filename),
                    contents: render_text(ptpl, spec_post_context(posts[j]))->Ok_0,
                }) + os =~= os);
            },
        }
    } else {
        assert(posts.len() > 0);
        let rest = posts.drop_first();
        assert(forall|j: int| 0 <= j < i - 1
            ==> render_text(ptpl, spec_post_context(#[trigger] rest[j])) is Ok) by {
            assert(forall|j: int| 0 <= j < rest.len() ==> rest[j] == posts[j + 1]);
        }
        lemma_render_split(ptpl, rest, i - 1);
        assert(rest.subrange(i - 1, rest.len() as int)
            =~= posts.subrange(i, posts.len() as int));
        let o0 = SpecOutFile {
            name: spec_out_name(posts[0].filename),
            contents: render_text(ptpl, spec_post_context(posts[0]))->Ok_0,
        };
        match spec_render_posts(ptpl, posts.subrange(i, posts.len() as int)) {
            Err(m) => {},
            Ok(os) => {
                let front = Seq::new(i as nat, |j: int| SpecOutFile {
                    name: spec_out_name(posts[j].filename),
                    contents: render_text(ptpl, spec_post_context(posts[j]))->Ok_0,
                });
                let front_rest = Seq::new((i - 1) as nat, |j: int| SpecOutFile {
                    name: spec_out_name(rest[j].filename),
                    contents: render_text(ptpl, spec_post_context(rest[j]))->Ok_0,
                });
                assert(seq![o0] + (front_rest + os) =~= front + os);
            },
        }
    }
}

/// With both templates present and every post parsed, the first post the
/// engine refuses to render decides the build's outcome.
proof fn lemma_build_render_error(
    itpl: Seq<char>,
    ptpl: Seq<char>,
    entries: Seq<SpecSourceFile>,
    posts: Seq<SpecPost>,
    k: int,
)
    requires
        spec_parse_all(entries) == Ok::<Seq<SpecPost>, Seq<char>>(posts),
        0 <= k < posts.len(),
        render_text(ptpl, spec_post_context(posts[k])) is Err,
        forall|j: int| 0 <= j < k
            ==> render_text(ptpl, spec_post_context(#[trigger] posts[j])) is Ok,
    ensures
        spec_build(true, true, itpl, ptpl, entries)
            == Err::<Seq<SpecOutFile>, SpecError>(SpecError::RenderError(
                render_text(ptpl, spec_post_context(posts[k]))->Err_0,
            )),
{
    lemma_render_split(ptpl, posts, k);
    assert(posts.subrange(k, posts.len() as int)[0] == posts[k]);
}

/// With both templates present, every post parsed and every rendering
/// accepted, the build's outcome is the posts' pages in order, then the
/// index page.
proof fn lemma_build_ok(
    itpl: Seq<char>,
    ptpl: Seq<char>,
    entries: Seq<SpecSourceFile>,
    posts: Seq<SpecPost>,
)
    requires
        spec_parse_all(entries) == Ok::<Seq<SpecPost>, Seq<char>>(posts),
        forall|j: int| 0 <= j < posts.len()
            ==> render_text(ptpl, spec_post_context(#[trigger] posts[j])) is Ok,
        render_text(itpl, spec_index_context(posts)) is Ok,
    ensures
        spec_build(true, true, itpl, ptpl, entries)
            == Ok::<Seq<SpecOutFile>, SpecError>(
                Seq::new(posts.len(), |j: int| SpecOutFile {
                    name: spec_out_name(posts[j].filename),
                    contents: render_text(ptpl, spec_post_context(posts[j]))->Ok_0,
                }).push(SpecOutFile {
                    name: "index.html"@,
                    contents: render_text(itpl, spec_index_context(posts))->Ok_0,
                }),
            ),
{
    lemma_render_split(ptpl, posts, posts.len() as int);
    assert(posts.subrange(posts.len() as int, posts.len() as int).len() == 0);
    let front = Seq::new(posts.len(), |j: int| SpecOutFile {
        name: spec_out_name(posts[j].filename),
        contents: render_text(ptpl, spec_post_context(posts[j]))->Ok_0,
    });
    assert(front + Seq::<SpecOutFile>::empty() =~= front);
}

/// Run the whole pipeline over in-memory inputs and return every output
/// file, or the single error that stopped the build.
#[verifier::rlimit(100)]
pub fn build_site(
    index_exists: bool,
    post_exists: bool,
    index_tpl: &str,
    post_tpl: &str,
    entries: &Vec<SourceFile>,
) -> (r: Result<Vec<OutFile>, CairoError>)
    ensures
        match r {
            Ok(outs) => spec_build(index_exists, post_exists, index_tpl@, post_tpl@,
                entries.deep_view()) is Ok
                && outs.deep_view() == spec_build(index_exists, post_exists, index_tpl@,
                    post_tpl@, entries.deep_view())->Ok_0,
            Err(e) => spec_build(index_exists, post_exists, index_tpl@, post_tpl@,
                entries.deep_view()) is Err
                && e@ == spec_build(index_exists, post_exists, index_tpl@, post_tpl@,
                    entries.deep_view())->Err_0,
        },
{
    let ghost ev = entries.deep_view();
    match check_templates(index_exists, post_exists) {
        Err(e) => {
            return Err(e);
        },
        Ok(()) => {},
    }
    proof {
        assert(index_exists);
        assert(post_exists);
    }
    let n = entries.len();
    let mut posts: Vec<Post> = Vec::new();
    let mut i: usize = 0;
    while i < n
        invariant
            index_exists,
            post_exists,
            i <= n,
            n == entries@.len(),
            ev == entries.deep_view(),
            ev.len() == n,
            posts@.len() == i,
            forall|j: int| 0 <= j < i
                ==> spec_parse((#[trigger] ev[j]).contents, ev[j].path) is Ok,
            forall|j: int| 0 <= j < i
                ==> #[trigger] posts.deep_view()[j] == spec_parse(ev[j].contents,
                    ev[j].path)->Ok_0,
        decreases n - i,
    {
        proof {
            assert(ev[i as int] == entries@[i as int]@);
        }
        match parse_post(entries[i].contents.as_str(), entries[i].path.as_str()) {
            Err(e) => {
                proof {
                    lemma_fail_fast(index_tpl@, post_tpl@, ev, i as int);
                }
                return Err(e);
            },
            Ok(p) => {
                let ghost prev = posts.deep_view();
                posts.push(p);
                proof {
                    assert(posts.deep_view() =~= prev.push(p@));
                }
            },
        }
        i += 1;
    }
    proof {
        lemma_parse_all_split(ev, n as int);
        assert(ev.subrange(n as int, ev.len() as int).len() == 0);
        assert(spec_parse_all(ev) is Ok);
        assert(posts.deep_view() =~= spec_parse_all(ev)->Ok_0);
    }
    let ghost pv = posts.deep_view();
    proof {
        assert(spec_parse_all(ev) == Ok::<Seq<SpecPost>, Seq<char>>(pv));
    }
    let mut outs: Vec<OutFile> = Vec::new();
    let mut k: usize = 0;
    while k < posts.len()
        invariant
            index_exists,
            post_exists,
            ev == entries.deep_view(),
            spec_parse_all(ev) == Ok::<Seq<SpecPost>, Seq<char>>(pv),
            k <= posts@.len(),
            pv == posts.deep_view(),
            pv.len() == posts@.len(),
            outs@.len() == k,
            forall|j: int| 0 <= j < k
                ==> render_text(post_tpl@, spec_post_context(#[trigger] pv[j])) is Ok,
            forall|j: int| 0 <= j < k ==> #[trigger] outs.deep_view()[j] == (SpecOutFile {
                name: spec_out_name(pv[j].filename),
                contents: render_text(post_tpl@, spec_post_context(pv[j]))->Ok_0,
            }),
        decreases posts@.len() - k,
    {
        proof {
            assert(pv[k as int] == posts@[k as int]@);
        }
        let ctx = post_context(&posts[k]);
        match render_template(post_tpl, ctx.as_str()) {
            Err(m) => {
                proof {
                    lemma_build_render_error(index_tpl@, post_tpl@, ev, pv, k as int);
                }
                return Err(CairoError::RenderError(m));
            },
            Ok(txt) => {
                let name = file_stem(posts[k].filename.as_str()).concat(".html");
                let ghost prev = outs.deep_view();
                outs.push(OutFile { name, contents: txt });
                proof {
                    assert(outs.deep_view() =~= prev.push(OutFile { name, contents: txt }@));
                }
            },
        }
        k += 1;
    }
    proof {
        lemma_render_split(post_tpl@, pv, pv.len() as int);
        assert(pv.subrange(pv.len() as int, pv.len() as int).len() == 0);
        assert(spec_render_posts(post_tpl@, pv) is Ok);
        assert(outs.deep_view() =~= spec_render_posts(post_tpl@, pv)->Ok_0);
    }
    let ictx = index_context(&posts);
    match render_template(index_tpl, ictx.as_str()) {
        Err(m) => Err(CairoError::RenderError(m)),
        Ok(idx) => {
            let ghost before = outs.deep_view();
            outs.push(OutFile { name: String::from_str("index.html"), contents: idx });
            proof {
                lemma_build_ok(index_tpl@, post_tpl@, ev, pv);
                assert(outs.deep_view() =~= before.push(SpecOutFile {
                    name: "index.html"@,
                    contents: render_text(index_tpl@, spec_index_context(pv))->Ok_0,
                }));
                assert(outs.deep_view()
                    =~= spec_build(index_exists, post_exists, index_tpl@, post_tpl@, ev)->Ok_0);
            }
            Ok(outs)
        },
    }
}

/// The template check precedes all work: with the index template
/// missing, the build's outcome is `CantFindIndexTemplate`, whatever the
/// posts, the other template and its own presence say.
pub proof fn lemma_gate_precedence(
    post_exists: bool,
    itpl: Seq<char>,
    ptpl: Seq<char>,
    entries: Seq<SpecSourceFile>,
)
    ensures
        spec_build(false, post_exists, itpl, ptpl, entries)
            == Err::<Seq<SpecOutFile>, SpecError>(SpecError::CantFindIndexTemplate),
{
}

/// Fail fast: with both templates present, if entry `k` is the first that
/// does not parse, the whole build's outcome is exactly that entry's parse
/// error — no output file exists.
pub proof fn lemma_fail_fast(
    itpl: Seq<char>,
    ptpl: Seq<char>,
    entries: Seq<SpecSourceFile>,
    k: int,
)
    requires
        0 <= k < entries.len(),
        spec_parse(entries[k].contents, entries[k].path) is Err,
        forall|j: int| 0 <= j < k
            ==> spec_parse((#[trigger] entries[j]).contents, entries[j].path) is Ok,
    ensures
        spec_build(true, true, itpl, ptpl, entries)
            == Err::<Seq<SpecOutFile>, SpecError>(SpecError::PostParseError(
                spec_parse(entries[k].contents, entries[k].path)->Err_0,
            )),
{
    lemma_parse_all_split(entries, k);
    assert(entries.subrange(k, entries.len() as int)[0] == entries[k]);
}

/// Determinism: the build's outcome is a function of its inputs alone, so
/// an unchanged source tree builds to byte-identical output every time.
pub proof fn lemma_build_deterministic(
    r1: Result<Seq<SpecOutFile>, SpecError>,
    r2: Result<Seq<SpecOutFile>, SpecError>,
    index_exists: bool,
    post_exists: bool,
    itpl: Seq<char>,
    ptpl: Seq<char>,
    entries: Seq<SpecSourceFile>,
)
    requires
        r1 == spec_build(index_exists, post_exists, itpl, ptpl, entries),
        r2 == spec_build(index_exists, post_exists, itpl, ptpl, entries),
    ensures
        r1 == r2,
{
}

} // verus!
