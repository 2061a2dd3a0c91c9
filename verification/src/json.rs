//! The rendering context, encoded as JSON text. Each post becomes one
//! object with its fields escaped as JSON strings; the index context is
//! one object holding the ordered array of those post objects.

use vstd::prelude::*;
use vstd::string::*;
use crate::text::push_char;
use crate::post::{Post, SpecPost};

verus! {

/// The hexadecimal digit for a value below sixteen.
pub open spec fn spec_hex_digit(n: int) -> char {
    if n == 0 { '0' }
    else if n == 1 { '1' }
    else if n == 2 { '2' }
    else if n == 3 { '3' }
    else if n == 4 { '4' }
    else if n == 5 { '5' }
    else if n == 6 { '6' }
    else if n == 7 { '7' }
    else if n == 8 { '8' }
    else if n == 9 { '9' }
    else if n == 10 { 'a' }
    else if n == 11 { 'b' }
    else if n == 12 { 'c' }
    else if n == 13 { 'd' }
    else if n == 14 { 'e' }
    else { 'f' }
}

/// How one character appears inside a JSON string literal.
pub open spec fn spec_escape_char(c: char) -> Seq<char> {
    if c == '"' { seq!['\\', '"'] }
    else if c == '\\' { seq!['\\', '\\'] }
    else if c == '\n' { seq!['\\', 'n'] }
    else if c == '\r' { seq!['\\', 'r'] }
    else if c == '\t' { seq!['\\', 't'] }
    else if (c as u32) < 32 {
        seq!['\\', 'u', '0', '0',
            spec_hex_digit(c as u32 as int / 16),
            spec_hex_digit(c as u32 as int % 16)]
    } else {
        seq![c]
    }
}

/// A whole text escaped for a JSON string literal.
pub open spec fn spec_escape(s: Seq<char>) -> Seq<char>
    decreases s.len(),
{
    if s.len() == 0 {
        Seq::<char>::empty()
    } else {
        spec_escape(s.drop_last()) + spec_escape_char(s.last())
    }
}

/// A JSON string literal: quotes around the escaped text.
pub open spec fn spec_json_string(s: Seq<char>) -> Seq<char> {
    seq!['"'] + spec_escape(s) + seq!['"']
}

/// A JSON array of string literals.
pub open spec fn spec_json_str_items(parts: Seq<Seq<char>>) -> Seq<char>
    decreases parts.len(),
{
    if parts.len() == 0 {
        Seq::<char>::empty()
    } else if parts.len() == 1 {
        spec_json_string(parts[0])
    } else {
        spec_json_str_items(parts.drop_last()) + seq![','] + spec_json_string(parts.last())
    }
}

pub open spec fn spec_json_str_array(parts: Seq<Seq<char>>) -> Seq<char> {
    seq!['['] + spec_json_str_items(parts) + seq![']']
}

/// The object a single post presents to a template: its structured
/// fields, with the date as the text of its header line.
pub open spec fn spec_post_context(p: SpecPost) -> Seq<char> {
    "{\"title\":"@ + spec_json_string(p.title)
        + ",\"date\":"@ + spec_json_string(p.date_text)
        + ",\"tags\":"@ + spec_json_str_array(p.tags)
        + ",\"source\":"@ + spec_json_string(p.source)
        + ",\"path\":"@ + spec_json_string(p.path)
        + ",\"filename\":"@ + spec_json_string(p.filename)
        + seq!['}']
}

/// The comma-separated post objects of the index context.
pub open spec fn spec_post_items(posts: Seq<SpecPost>) -> Seq<char>
    decreases posts.len(),
{
    if posts.len() == 0 {
        Seq::<char>::empty()
    } else if posts.len() == 1 {
        spec_post_context(posts[0])
    } else {
        spec_post_items(posts.drop_last()) + seq![','] + spec_post_context(posts.last())
    }
}

/// The object the index template is rendered with: the ordered array of
/// all post objects under the key `posts`.
pub open spec fn spec_index_context(posts: Seq<SpecPost>) -> Seq<char> {
    "{\"posts\":["@ + spec_post_items(posts) + "]}"@
}

/// The hexadecimal digit character for `n < 16`.
fn hex_digit(n: u32) -> (r: char)
    requires
        n < 16,
    ensures
        r == spec_hex_digit(n as int),
{
    if n == 0 { '0' }
    else if n == 1 { '1' }
    else if n == 2 { '2' }
    else if n == 3 { '3' }
    else if n == 4 { '4' }
    else if n == 5 { '5' }
    else if n == 6 { '6' }
    else if n == 7 { '7' }
    else if n == 8 { '8' }
    else if n == 9 { '9' }
    else if n == 10 { 'a' }
    else if n == 11 { 'b' }
    else if n == 12 { 'c' }
    else if n == 13 { 'd' }
    else if n == 14 { 'e' }
    else { 'f' }
}

/// Append one character's JSON escape to `out`.
fn append_escaped_char(out: &mut String, c: char)
    ensures
        final(out)@ == old(out)@ + spec_escape_char(c),
{
    if c == '"' {
        out.append("\\\"");
        proof {
            reveal_strlit("\\\"");
            assert("\\\""@ =~= spec_escape_char(c));
        }
    } else if c == '\\' {
        out.append("\\\\");
        proof {
            reveal_strlit("\\\\");
            assert("\\\\"@ =~= spec_escape_char(c));
        }
    } else if c == '\n' {
        out.append("\\n");
        proof {
            reveal_strlit("\\n");
            assert("\\n"@ =~= spec_escape_char(c));
        }
    } else if c == '\r' {
        out.append("\\r");
        proof {
            reveal_strlit("\\r");
            assert("\\r"@ =~= spec_escape_char(c));
        }
    } else if c == '\t' {
        out.append("\\t");
        proof {
            reveal_strlit("\\t");
            assert("\\t"@ =~= spec_escape_char(c));
        }
    } else if (c as u32) < 32 {
        let code = c as u32;
        out.append("\\u00");
        push_char(out, hex_digit(code / 16));
        push_char(out, hex_digit(code % 16));
        proof {
            reveal_strlit("\\u00");
            assert(out@ =~= old(out)@ + spec_escape_char(c));
        }
    } else {
        push_char(out, c);
        proof {
            assert(out@ =~= old(out)@ + spec_escape_char(c));
        }
    }
}

/// Append `s` escaped for a JSON string literal to `out`.
fn append_escaped(out: &mut String, s: &str)
    ensures
        final(out)@ == old(out)@ + spec_escape(s@),
{
    let n = s.unicode_len();
    let mut i: usize = 0;
    proof {
        assert(s@.subrange(0, 0).len() == 0);
        assert(out@ =~= old(out)@ + spec_escape(s@.subrange(0, 0)));
    }
    while i < n
        invariant
            i <= n,
            n == s@.len(),
            out@ == old(out)@ + spec_escape(s@.subrange(0, i as int)),
        decreases n - i,
    {
        let c = s.get_char(i);
        append_escaped_char(out, c);
        proof {
            assert(s@.subrange(0, i + 1 as int).drop_last() =~= s@.subrange(0, i as int));
            assert(s@.subrange(0, i + 1 as int).last() == s@[i as int]);
            assert(out@ =~= old(out)@ + spec_escape(s@.subrange(0, i + 1 as int)));
        }
        i += 1;
    }
    proof {
        assert(s@.subrange(0, n as int) =~= s@);
    }
}

/// Append the JSON string literal for `s` to `out`.
fn append_json_string(out: &mut String, s: &str)
    ensures
        final(out)@ == old(out)@ + spec_json_string(s@),
{
    push_char(out, '"');
    append_escaped(out, s);
    push_char(out, '"');
    proof {
        assert(out@ =~= old(out)@ + spec_json_string(s@));
    }
}

/// Append the JSON array of string literals for `parts` to `out`.
fn append_json_str_array(out: &mut String, parts: &Vec<String>)
    ensures
        final(out)@ == old(out)@ + spec_json_str_array(parts.deep_view()),
{
    push_char(out, '[');
    let n = parts.len();
    let mut i: usize = 0;
    proof {
        assert(parts.deep_view().take(0).len() == 0);
        assert(out@ =~= old(out)@ + seq!['['] + spec_json_str_items(parts.deep_view().take(0)));
    }
    while i < n
        invariant
            i <= n,
            n == parts@.len(),
            parts.deep_view().len() == parts@.len(),
            out@ == old(out)@ + seq!['['] + spec_json_str_items(parts.deep_view().take(i as int)),
        decreases n - i,
    {
        if i > 0 {
            push_char(out, ',');
        }
        append_json_string(out, parts[i].as_str());
        proof {
            let pv = parts.deep_view();
            assert(pv[i as int] == parts@[i as int]@);
            assert(pv.take(i + 1 as int).drop_last() =~= pv.take(i as int));
            assert(pv.take(i + 1 as int).last() == pv[i as int]);
            if i == 0 {
                assert(spec_json_str_items(pv.take(1)) == spec_json_string(pv[0]));
            }
            assert(out@ =~= old(out)@ + seq!['['] + spec_json_str_items(pv.take(i + 1 as int)));
        }
        i += 1;
    }
    push_char(out, ']');
    proof {
        assert(parts.deep_view().take(n as int) =~= parts.deep_view());
        assert(out@ =~= old(out)@ + spec_json_str_array(parts.deep_view()));
    }
}

/// The JSON context for rendering one post.
pub fn post_context(p: &Post) -> (r: String)
    ensures
        r@ == spec_post_context(p@),
{
    let mut out = String::new();
    append_post_context(&mut out, p);
    proof {
        assert(out@ =~= spec_post_context(p@));
    }
    out
}

/// Append one post's context object to `out`.
fn append_post_context(out: &mut String, p: &Post)
    ensures
        final(out)@ == old(out)@ + spec_post_context(p@),
{
    out.append("{\"title\":");
    append_json_string(out, p.title.as_str());
    out.append(",\"date\":");
    append_json_string(out, p.date_text.as_str());
    out.append(",\"tags\":");
    append_json_str_array(out, &p.tags);
    out.append(",\"source\":");
    append_json_string(out, p.source.as_str());
    out.append(",\"path\":");
    append_json_string(out, p.path.as_str());
    out.append(",\"filename\":");
    append_json_string(out, p.filename.as_str());
    push_char(out, '}');
    proof {
        assert(out@ =~= old(out)@ + spec_post_context(p@));
    }
}

/// The JSON context for rendering the index: all posts, in order.
pub fn index_context(posts: &Vec<Post>) -> (r: String)
    ensures
        r@ == spec_index_context(posts.deep_view()),
{
    let mut out = String::new();
    out.append("{\"posts\":[");
    let n = posts.len();
    let mut i: usize = 0;
    proof {
        assert(posts.deep_view().take(0).len() == 0);
        assert(out@ =~= "{\"posts\":["@ + spec_post_items(posts.deep_view().take(0)));
    }
    while i < n
        invariant
            i <= n,
            n == posts@.len(),
            posts.deep_view().len() == posts@.len(),
            out@ == "{\"posts\":["@ + spec_post_items(posts.deep_view().take(i as int)),
        decreases n - i,
    {
        if i > 0 {
            push_char(&mut out, ',');
        }
        append_post_context(&mut out, &posts[i]);
        proof {
            let pv = posts.deep_view();
            assert(pv[i as int] == posts@[i as int]@);
            assert(pv.take(i + 1 as int).drop_last() =~= pv.take(i as int));
            assert(pv.take(i + 1 as int).last() == pv[i as int]);
            if i == 0 {
                assert(spec_post_items(pv.take(1)) == spec_post_context(pv[0]));
            }
            assert(out@ =~= "{\"posts\":["@ + spec_post_items(pv.take(i + 1 as int)));
        }
        i += 1;
    }
    out.append("]}");
    proof {
        assert(posts.deep_view().take(n as int) =~= posts.deep_view());
        assert(out@ =~= spec_index_context(posts.deep_view()));
    }
    out
}

} // verus!
