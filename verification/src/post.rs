//! The post format: a three-line header (title, date, tags) separated from
//! the body by a `---` line, and the parser that turns one source file into
//! a structured `Post` or a field-specific parse error.

use vstd::prelude::*;
use vstd::string::*;
use crate::text::{
    no_char, find_at, find_sub, split_on, join_with, lemma_find_sub_from_none,
    lemma_find_sub_from_first, lemma_find_sub_from_sound, lemma_split_nonempty,
    lemma_split_prefix, lemma_split_no_sep, lemma_split_join, lemma_join_no_char,
    split_str, join_strings, push_char,
};
use crate::errors::CairoError;

verus! {

/// The body delimiter: a line holding only three dashes.
pub open spec fn delim() -> Seq<char> {
    seq!['\n', '-', '-', '-', '\n']
}

/// Three dashes: a header line equal to this would collide with the delimiter.
pub open spec fn dashes() -> Seq<char> {
    seq!['-', '-', '-']
}

pub open spec fn msg_no_body() -> Seq<char> {
    "Failed to parse post body"@
}

pub open spec fn msg_no_title() -> Seq<char> {
    "Failed to parse title string"@
}

pub open spec fn msg_no_date() -> Seq<char> {
    "Failed to parse date string"@
}

pub open spec fn msg_no_tags() -> Seq<char> {
    "Failed to parse tags"@
}

pub open spec fn msg_time_prefix() -> Seq<char> {
    "time parse: "@
}

/// What parsing a date line yields: the timestamp in seconds, or the
/// underlying parser's message. The outcome depends on the text alone.
pub uninterp spec fn date_parse(s: Seq<char>) -> Result<i64, Seq<char>>;

/// Relies on `chrono::NaiveDateTime::parse_from_str` with the fixed format
/// `%a %b %e %T %Y` (weekday, month, day, time, year), on
/// `NaiveDateTime::and_utc` and `DateTime::timestamp` to read the parsed
/// value as seconds, and on the parse error's `to_string`: for a fixed
/// input text the outcome is always the same value or the same message.
#[verifier::external_body]
fn parse_date_text(s: &str) -> (r: Result<i64, String>)
    ensures
        r is Ok <==> date_parse(s@) is Ok,
        r is Ok ==> r->Ok_0 == date_parse(s@)->Ok_0,
        r is Err ==> r->Err_0@ == date_parse(s@)->Err_0,
{
    match chrono::NaiveDateTime::parse_from_str(s, "%a %b %e %T %Y") {
        Ok(dt) => Ok(dt.and_utc().timestamp()),
        Err(e) => Err(e.to_string()),
    }
}

/// One blog entry, immutable once constructed.
#[derive(Debug)]
pub struct Post {
    /// Where the source file lives; kept as given, the post's identity.
    pub path: String,
    /// The base name derived once from `path`, or the sentinel
    /// `missing-filename` when the path yields none.
    pub filename: String,
    /// Header line 0; never empty.
    pub title: String,
    /// Header line 1 as written in the source file.
    pub date_text: String,
    /// The date of header line 1, as seconds of the parsed timestamp.
    pub date: i64,
    /// Header line 2 split on single spaces; may be empty strings, never
    /// an empty list.
    pub tags: Vec<String>,
    /// Everything after the delimiter, verbatim.
    pub source: String,
}

/// The mathematical shadow of a `Post`.
pub ghost struct SpecPost {
    pub path: Seq<char>,
    pub filename: Seq<char>,
    pub title: Seq<char>,
    pub date_text: Seq<char>,
    pub date: i64,
    pub tags: Seq<Seq<char>>,
    pub source: Seq<char>,
}

impl View for Post {
    type V = SpecPost;

    open spec fn view(&self) -> SpecPost {
        SpecPost {
            path: self.path@,
            filename: self.filename@,
            title: self.title@,
            date_text: self.date_text@,
            date: self.date,
            tags: self.tags.deep_view(),
            source: self.source@,
        }
    }
}

impl DeepView for Post {
    type V = SpecPost;

    open spec fn deep_view(&self) -> SpecPost {
        self.view()
    }
}

/// The index of the last occurrence of `c` in `s`, if any.
pub open spec fn find_char_last(s: Seq<char>, c: char) -> Option<int>
    decreases s.len(),
{
    if s.len() == 0 {
        None
    } else if s.last() == c {
        Some(s.len() - 1)
    } else {
        find_char_last(s.drop_last(), c)
    }
}

pub proof fn lemma_find_char_last_sound(s: Seq<char>, c: char)
    ensures
        match find_char_last(s, c) {
            Some(i) => 0 <= i < s.len() && s[i] == c,
            None => no_char(s, c),
        },
    decreases s.len(),
{
    if s.len() == 0 {
    } else if s.last() == c {
    } else {
        lemma_find_char_last_sound(s.drop_last(), c);
        if find_char_last(s.drop_last(), c) is None {
            assert(forall|k: int| 0 <= k < s.len() - 1 ==> s.drop_last()[k] == s[k]);
            assert(no_char(s, c));
        }
    }
}

/// The base name of a path: what follows the last `/`, the whole path when
/// there is none, and the sentinel when that leaves nothing.
pub open spec fn spec_base_name(p: Seq<char>) -> Seq<char> {
    let f = match find_char_last(p, '/') {
        None => p,
        Some(i) => p.subrange(i + 1, p.len() as int),
    };
    if f.len() == 0 {
        "missing-filename"@
    } else {
        f
    }
}

/// A file name without its extension: what precedes the last `.`, kept
/// whole when there is no `.` or when the `.` comes first.
pub open spec fn spec_stem(f: Seq<char>) -> Seq<char> {
    match find_char_last(f, '.') {
        None => f,
        Some(i) => if i > 0 {
            f.subrange(0, i)
        } else {
            f
        },
    }
}

/// Find the last occurrence of a character in a string.
pub fn rfind_char(s: &str, c: char) -> (r: Option<usize>)
    ensures
        match r {
            Some(i) => find_char_last(s@, c) == Some(i as int),
            None => find_char_last(s@, c) is None,
        },
{
    let n = s.unicode_len();
    proof {
        assert(s@.subrange(0, n as int) =~= s@);
    }
    let mut i: usize = n;
    while i > 0
        invariant
            i <= n,
            n == s@.len(),
            find_char_last(s@, c) == find_char_last(s@.subrange(0, i as int), c),
        decreases i,
    {
        let ch = s.get_char(i - 1);
        proof {
            assert(s@.subrange(0, i as int).last() == s@[i - 1]);
        }
        if ch == c {
            return Some(i - 1);
        }
        proof {
            assert(s@.subrange(0, i as int).drop_last() =~= s@.subrange(0, i - 1));
        }
        i -= 1;
    }
    proof {
        assert(s@.subrange(0, 0).len() == 0);
    }
    None
}

/// Derive the base name of a path, as `spec_base_name` describes.
pub fn base_name(path: &str) -> (r: String)
    ensures
        r@ == spec_base_name(path@),
{
    let n = path.unicode_len();
    proof {
        lemma_find_char_last_sound(path@, '/');
    }
    let f: &str = match rfind_char(path, '/') {
        None => path,
        Some(i) => path.substring_char(i + 1, n),
    };
    if f.unicode_len() == 0 {
        String::from_str("missing-filename")
    } else {
        String::from_str(f)
    }
}

/// Drop the extension of a file name, as `spec_stem` describes.
pub fn file_stem(f: &str) -> (r: String)
    ensures
        r@ == spec_stem(f@),
{
    proof {
        lemma_find_char_last_sound(f@, '.');
    }
    match rfind_char(f, '.') {
        None => String::from_str(f),
        Some(i) => if i > 0 {
            String::from_str(f.substring_char(0, i))
        } else {
            String::from_str(f)
        },
    }
}

/// What parsing one source file yields: the structured fields, or the
/// message of the first field that fails. The header is everything before
/// the first delimiter; line 0 is the title (never empty), line 1 the date,
/// line 2 the tags split on spaces; the body follows the delimiter verbatim.
pub open spec fn spec_parse(s: Seq<char>, path: Seq<char>) -> Result<SpecPost, Seq<char>> {
    match find_sub(s, delim()) {
        None => Err(msg_no_body()),
        Some(i) => {
            let header = s.subrange(0, i);
            let body = s.subrange(i + 5, s.len() as int);
            let lines = split_on(header, '\n');
            if lines[0].len() == 0 {
                Err(msg_no_title())
            } else if lines.len() < 2 {
                Err(msg_no_date())
            } else {
                match date_parse(lines[1]) {
                    Err(m) => Err(msg_time_prefix() + m),
                    Ok(ts) => if lines.len() < 3 {
                        Err(msg_no_tags())
                    } else {
                        Ok(SpecPost {
                            path: path,
                            filename: spec_base_name(path),
                            title: lines[0],
                            date_text: lines[1],
                            date: ts,
                            tags: split_on(lines[2], ' '),
                            source: body,
                        })
                    },
                }
            }
        },
    }
}

/// Find the first body delimiter in a source file.
fn find_delim(s: &str) -> (r: Option<usize>)
    ensures
        match r {
            Some(i) => find_sub(s@, delim()) == Some(i as int),
            None => find_sub(s@, delim()) is None,
        },
{
    let n = s.unicode_len();
    if n < 5 {
        proof {
            assert(forall|j: int| 0 <= j ==> !find_at(s@, delim(), j));
            lemma_find_sub_from_none(s@, delim(), 0);
        }
        return None;
    }
    let mut i: usize = 0;
    while i <= n - 5
        invariant
            n == s@.len(),
            n >= 5,
            i <= n - 4,
            forall|j: int| 0 <= j < i ==> !find_at(s@, delim(), j),
        decreases n - i,
    {
        let c0 = s.get_char(i);
        let c1 = s.get_char(i + 1);
        let c2 = s.get_char(i + 2);
        let c3 = s.get_char(i + 3);
        let c4 = s.get_char(i + 4);
        if c0 == '\n' && c1 == '-' && c2 == '-' && c3 == '-' && c4 == '\n' {
            proof {
                assert(s@.subrange(i as int, i + 5 as int) =~= delim());
                assert(find_at(s@, delim(), i as int));
                lemma_find_sub_from_first(s@, delim(), 0, i as int);
            }
            return Some(i);
        }
        proof {
            let ii = i as int;
            if find_at(s@, delim(), ii) {
                assert(s@.subrange(ii, ii + 5) == delim());
                assert(s@.subrange(ii, ii + 5)[0] == s@[ii]);
                assert(s@.subrange(ii, ii + 5)[1] == s@[ii + 1]);
                assert(s@.subrange(ii, ii + 5)[2] == s@[ii + 2]);
                assert(s@.subrange(ii, ii + 5)[3] == s@[ii + 3]);
                assert(s@.subrange(ii, ii + 5)[4] == s@[ii + 4]);
                assert(false);
            }
        }
        i += 1;
    }
    proof {
        assert(forall|j: int| 0 <= j ==> !find_at(s@, delim(), j)) by {
            assert(forall|j: int| j + 5 > n ==> !find_at(s@, delim(), j));
        }
        lemma_find_sub_from_none(s@, delim(), 0);
    }
    None
}

/// Parse one source file into a `Post`, or report which field failed.
pub fn parse_post(contents: &str, path: &str) -> (r: Result<Post, CairoError>)
    ensures
        match r {
            Ok(p) => spec_parse(contents@, path@) is Ok
                && p@ == spec_parse(contents@, path@)->Ok_0,
            Err(e) => spec_parse(contents@, path@) is Err
                && e@ == crate::errors::SpecError::PostParseError(
                    spec_parse(contents@, path@)->Err_0,
                ),
        },
{
    let n = contents.unicode_len();
    let i = match find_delim(contents) {
        None => {
            return Err(CairoError::PostParseError(
                String::from_str("Failed to parse post body"),
            ));
        },
        Some(i) => i,
    };
    proof {
        lemma_find_sub_from_sound(contents@, delim(), 0);
    }
    let header = contents.substring_char(0, i);
    let body = contents.substring_char(i + 5, n);
    let lines = split_str(header, '\n');
    proof {
        lemma_split_nonempty(header@, '\n');
        assert(lines.deep_view()[0] == lines@[0]@);
    }
    if lines[0].as_str().unicode_len() == 0 {
        return Err(CairoError::PostParseError(
            String::from_str("Failed to parse title string"),
        ));
    }
    if lines.len() < 2 {
        return Err(CairoError::PostParseError(
            String::from_str("Failed to parse date string"),
        ));
    }
    proof {
        assert(lines.deep_view()[1] == lines@[1]@);
    }
    let ts = match parse_date_text(lines[1].as_str()) {
        Err(m) => {
            return Err(CairoError::PostParseError(
                String::from_str("time parse: ").concat(m.as_str()),
            ));
        },
        Ok(ts) => ts,
    };
    if lines.len() < 3 {
        return Err(CairoError::PostParseError(String::from_str("Failed to parse tags")));
    }
    proof {
        assert(lines.deep_view()[2] == lines@[2]@);
    }
    let tags = split_str(lines[2].as_str(), ' ');
    let title = lines[0].clone();
    let date_text = lines[1].clone();
    Ok(Post {
        path: String::from_str(path),
        filename: base_name(path),
        title,
        date_text,
        date: ts,
        tags,
        source: String::from_str(body),
    })
}

/// The source text that carries the given fields: header lines, the
/// delimiter, then the body.
pub open spec fn spec_post_text(
    title: Seq<char>,
    date_text: Seq<char>,
    tags: Seq<Seq<char>>,
    source: Seq<char>,
) -> Seq<char> {
    title + seq!['\n'] + date_text + seq!['\n'] + join_with(tags, ' ') + delim() + source
}

/// Serialize a post's structured fields back into source-file form.
pub fn post_text(p: &Post) -> (r: String)
    ensures
        r@ == spec_post_text(p.title@, p.date_text@, p.tags.deep_view(), p.source@),
{
    let mut out = String::new();
    out.append(p.title.as_str());
    push_char(&mut out, '\n');
    out.append(p.date_text.as_str());
    push_char(&mut out, '\n');
    let tags_line = join_strings(&p.tags, ' ');
    out.append(tags_line.as_str());
    out.append("\n---\n");
    out.append(p.source.as_str());
    proof {
        reveal_strlit("\n---\n");
        assert("\n---\n"@ =~= delim());
        assert(out@ =~= spec_post_text(p.title@, p.date_text@, p.tags.deep_view(), p.source@));
    }
    out
}

/// Inside `title\n date\n tagsline` followed by the delimiter, the
/// delimiter occurs nowhere before the header's end, as long as no header
/// line holds a newline and neither the date nor the tags line is `---`.
proof fn lemma_no_delim_in_header(
    t: Seq<char>,
    d: Seq<char>,
    g: Seq<char>,
    rest: Seq<char>,
    j: int,
)
    requires
        no_char(t, '\n'),
        no_char(d, '\n'),
        no_char(g, '\n'),
        d != dashes(),
        g != dashes(),
        0 <= j < t.len() + 1 + d.len() + 1 + g.len(),
    ensures
        !find_at(t + seq!['\n'] + d + seq!['\n'] + g + delim() + rest, delim(), j),
{
    let s = t + seq!['\n'] + d + seq!['\n'] + g + delim() + rest;
    let tl = t.len() as int;
    let dl = d.len() as int;
    let gl = g.len() as int;
    let hl = tl + 1 + dl + 1 + gl;
    assert(forall|k: int| 0 <= k < tl ==> s[k] == t[k]);
    assert(s[tl] == '\n');
    assert(forall|k: int| 0 <= k < dl ==> s[tl + 1 + k] == d[k]);
    assert(s[tl + 1 + dl] == '\n');
    assert(forall|k: int| 0 <= k < gl ==> s[tl + 2 + dl + k] == g[k]);
    assert(forall|k: int| 0 <= k < 5 ==> s[hl + k] == delim()[k]);
    if find_at(s, delim(), j) {
        assert(s.subrange(j, j + 5) == delim());
        assert(forall|k: int| 0 <= k < 5
            ==> s[j + k] == #[trigger] s.subrange(j, j + 5)[k]);
        assert(s[j] == '\n');
        if j < tl {
            assert(s[j] == t[j]);
            assert(false);
        } else if j == tl {
            if dl >= 4 {
                assert(s[j + 4] == d[3]);
                assert(s[j + 4] == '\n');
                assert(false);
            } else if dl == 3 {
                assert(d[0] == s[tl + 1] && s[j + 1] == '-');
                assert(d[1] == s[tl + 2] && s[j + 2] == '-');
                assert(d[2] == s[tl + 3] && s[j + 3] == '-');
                assert(d =~= dashes());
                assert(false);
            } else {
                assert(s[tl + 1 + dl] == '\n');
                assert(delim()[1] == '-' && delim()[2] == '-' && delim()[3] == '-');
                assert(s[j + (1 + dl)] == delim()[1 + dl]);
                assert(false);
            }
        } else if j < tl + 1 + dl {
            assert(s[j] == d[j - tl - 1]);
            assert(false);
        } else if j == tl + 1 + dl {
            if gl >= 4 {
                assert(s[j + 4] == g[3]);
                assert(s[j + 4] == '\n');
                assert(false);
            } else if gl == 3 {
                assert(g[0] == s[tl + 2 + dl] && s[j + 1] == '-');
                assert(g[1] == s[tl + 2 + dl + 1] && s[j + 2] == '-');
                assert(g[2] == s[tl + 2 + dl + 2] && s[j + 3] == '-');
                assert(g =~= dashes());
                assert(false);
            } else {
                assert(s[hl] == delim()[0]);
                assert(s[hl] == '\n');
                assert(delim()[1] == '-' && delim()[2] == '-' && delim()[3] == '-');
                assert(s[j + (1 + gl)] == delim()[1 + gl]);
                assert(false);
            }
        } else {
            assert(s[j] == g[j - tl - 2 - dl]);
            assert(false);
        }
    }
}

/// The round-trip law: a well-formed post serialized by `spec_post_text`
/// parses back to exactly the same structured fields. Well-formed means:
/// the title is non-empty, no header line holds a newline, no tag holds a
/// space, the date line parses, there is at least one tag, and neither the
/// date line nor the joined tags line is the bare `---` that would collide
/// with the delimiter.
pub proof fn lemma_parse_round_trip(
    title: Seq<char>,
    date_text: Seq<char>,
    tags: Seq<Seq<char>>,
    source: Seq<char>,
    path: Seq<char>,
)
    requires
        title.len() > 0,
        no_char(title, '\n'),
        no_char(date_text, '\n'),
        date_text != dashes(),
        date_parse(date_text) is Ok,
        tags.len() >= 1,
        forall|k: int| 0 <= k < tags.len()
            ==> no_char(#[trigger] tags[k], '\n') && no_char(tags[k], ' '),
        join_with(tags, ' ') != dashes(),
    ensures
        spec_parse(spec_post_text(title, date_text, tags, source), path)
            == Ok::<SpecPost, Seq<char>>(SpecPost {
                path: path,
                filename: spec_base_name(path),
                title: title,
                date_text: date_text,
                date: date_parse(date_text)->Ok_0,
                tags: tags,
                source: source,
            }),
{
    let g = join_with(tags, ' ');
    let header = title + seq!['\n'] + date_text + seq!['\n'] + g;
    let s = spec_post_text(title, date_text, tags, source);
    assert(s =~= title + seq!['\n'] + date_text + seq!['\n'] + g + delim() + source);
    lemma_join_no_char(tags, ' ', '\n');
    let hl = header.len() as int;
    assert(find_at(s, delim(), hl)) by {
        assert(s.subrange(hl, hl + 5) =~= delim());
    }
    assert forall|j: int| 0 <= j < hl implies !find_at(s, delim(), j) by {
        lemma_no_delim_in_header(title, date_text, g, source, j);
    }
    lemma_find_sub_from_first(s, delim(), 0, hl);
    assert(find_sub(s, delim()) == Some(hl));
    assert(s.subrange(0, hl) =~= header);
    assert(s.subrange(hl + 5, s.len() as int) =~= source);
    assert(header =~= title + seq!['\n'] + (date_text + seq!['\n'] + g));
    lemma_split_prefix(title, date_text + seq!['\n'] + g, '\n');
    lemma_split_prefix(date_text, g, '\n');
    lemma_split_no_sep(g, '\n');
    let lines = split_on(header, '\n');
    assert(lines =~~= seq![title, date_text, g]);
    assert(lines[0] == title && lines[1] == date_text && lines[2] == g);
    lemma_split_join(tags, ' ');
    assert(split_on(lines[2], ' ') == tags);
}

} // verus!
