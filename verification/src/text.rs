//! Character-sequence utilities: splitting on a separator, joining with a
//! separator, and locating the first occurrence of a pattern. These carry
//! the post format's structure (header lines, tag lists, the body delimiter).

use vstd::prelude::*;
use vstd::string::*;

verus! {

/// No character of `s` equals `c`.
pub open spec fn no_char(s: Seq<char>, c: char) -> bool {
    forall|k: int| 0 <= k < s.len() ==> s[k] != c
}

/// The pattern `pat` occurs in `s` starting at index `i`.
pub open spec fn find_at(s: Seq<char>, pat: Seq<char>, i: int) -> bool {
    &&& 0 <= i
    &&& i + pat.len() <= s.len()
    &&& s.subrange(i, i + pat.len() as int) == pat
}

/// The index of the first occurrence of `pat` in `s` at or after `i`.
pub open spec fn find_sub_from(s: Seq<char>, pat: Seq<char>, i: int) -> Option<int>
    decreases s.len() - i,
{
    if i < 0 || i + pat.len() > s.len() {
        None
    } else if pat.len() == 0 {
        Some(i)
    } else if s.subrange(i, i + pat.len() as int) == pat {
        Some(i)
    } else {
        find_sub_from(s, pat, i + 1)
    }
}

/// The index of the first occurrence of `pat` in `s`, if any.
pub open spec fn find_sub(s: Seq<char>, pat: Seq<char>) -> Option<int> {
    find_sub_from(s, pat, 0)
}

/// Split `s` on every occurrence of `sep`. The result always has at least
/// one piece; the separators themselves are dropped.
pub open spec fn split_on(s: Seq<char>, sep: char) -> Seq<Seq<char>>
    decreases s.len(),
{
    if s.len() == 0 {
        seq![Seq::<char>::empty()]
    } else if s[0] == sep {
        seq![Seq::<char>::empty()] + split_on(s.drop_first(), sep)
    } else {
        let rest = split_on(s.drop_first(), sep);
        seq![seq![s[0]] + rest[0]] + rest.drop_first()
    }
}

/// Join the pieces with `sep` between them.
pub open spec fn join_with(parts: Seq<Seq<char>>, sep: char) -> Seq<char>
    decreases parts.len(),
{
    if parts.len() == 0 {
        Seq::<char>::empty()
    } else if parts.len() == 1 {
        parts[0]
    } else {
        parts[0] + seq![sep] + join_with(parts.drop_first(), sep)
    }
}

pub proof fn lemma_split_nonempty(s: Seq<char>, sep: char)
    ensures
        split_on(s, sep).len() >= 1,
    decreases s.len(),
{
    if s.len() == 0 {
    } else if s[0] == sep {
        lemma_split_nonempty(s.drop_first(), sep);
    } else {
        lemma_split_nonempty(s.drop_first(), sep);
    }
}

/// A sequence free of the separator splits into just itself.
pub proof fn lemma_split_no_sep(s: Seq<char>, sep: char)
    requires
        no_char(s, sep),
    ensures
        split_on(s, sep) == seq![s],
    decreases s.len(),
{
    if s.len() == 0 {
        assert(split_on(s, sep) =~~= seq![s]);
    } else {
        assert(s[0] != sep);
        assert(no_char(s.drop_first(), sep)) by {
            assert(forall|k: int|
                0 <= k < s.drop_first().len() ==> s.drop_first()[k] == s[k + 1]);
        }
        lemma_split_no_sep(s.drop_first(), sep);
        let rest = split_on(s.drop_first(), sep);
        assert(rest[0] == s.drop_first());
        assert(seq![s[0]] + s.drop_first() =~= s);
        assert(split_on(s, sep) =~~= seq![s]);
    }
}

/// Splitting `p + sep + rest` where `p` is free of the separator yields
/// `p` followed by the split of `rest`.
pub proof fn lemma_split_prefix(p: Seq<char>, rest: Seq<char>, sep: char)
    requires
        no_char(p, sep),
    ensures
        split_on(p + seq![sep] + rest, sep) == seq![p] + split_on(rest, sep),
    decreases p.len(),
{
    let s = p + seq![sep] + rest;
    if p.len() == 0 {
        assert(s[0] == sep);
        assert(s.drop_first() =~= rest);
        assert(p =~= Seq::<char>::empty());
        assert(split_on(s, sep) =~~= seq![p] + split_on(rest, sep));
    } else {
        assert(s[0] == p[0]);
        assert(p[0] != sep);
        assert(no_char(p.drop_first(), sep)) by {
            assert(forall|k: int|
                0 <= k < p.drop_first().len() ==> p.drop_first()[k] == p[k + 1]);
        }
        assert(s.drop_first() =~= p.drop_first() + seq![sep] + rest);
        lemma_split_prefix(p.drop_first(), rest, sep);
        let rec = split_on(s.drop_first(), sep);
        assert(rec == seq![p.drop_first()] + split_on(rest, sep));
        assert(rec[0] == p.drop_first());
        assert(seq![s[0]] + rec[0] =~= p);
        assert(rec.drop_first() =~= split_on(rest, sep));
        assert(split_on(s, sep) =~~= seq![p] + split_on(rest, sep));
    }
}

/// Splitting undoes joining: pieces free of the separator come back
/// exactly, as long as there is at least one piece.
pub proof fn lemma_split_join(parts: Seq<Seq<char>>, sep: char)
    requires
        parts.len() >= 1,
        forall|k: int| 0 <= k < parts.len() ==> no_char(#[trigger] parts[k], sep),
    ensures
        split_on(join_with(parts, sep), sep) == parts,
    decreases parts.len(),
{
    if parts.len() == 1 {
        lemma_split_no_sep(parts[0], sep);
        assert(split_on(join_with(parts, sep), sep) =~~= parts);
    } else {
        let rest = parts.drop_first();
        assert(forall|k: int| 0 <= k < rest.len() ==> no_char(#[trigger] rest[k], sep)) by {
            assert(forall|k: int| 0 <= k < rest.len() ==> rest[k] == parts[k + 1]);
        }
        lemma_split_join(rest, sep);
        lemma_split_prefix(parts[0], join_with(rest, sep), sep);
        assert(split_on(join_with(parts, sep), sep) =~~= parts);
    }
}

/// Joining pieces free of some character `c` (other than the separator)
/// yields a sequence free of `c`.
pub proof fn lemma_join_no_char(parts: Seq<Seq<char>>, sep: char, c: char)
    requires
        c != sep,
        forall|k: int| 0 <= k < parts.len() ==> no_char(#[trigger] parts[k], c),
    ensures
        no_char(join_with(parts, sep), c),
    decreases parts.len(),
{
    if parts.len() == 0 {
    } else if parts.len() == 1 {
        assert(join_with(parts, sep) == parts[0]);
    } else {
        let rest = parts.drop_first();
        assert(forall|k: int| 0 <= k < rest.len() ==> no_char(#[trigger] rest[k], c)) by {
            assert(forall|k: int| 0 <= k < rest.len() ==> rest[k] == parts[k + 1]);
        }
        lemma_join_no_char(rest, sep, c);
        let j = join_with(parts, sep);
        assert(j == parts[0] + seq![sep] + join_with(rest, sep));
        assert(forall|k: int| 0 <= k < j.len() ==> j[k] != c) by {
            assert(forall|k: int| 0 <= k < parts[0].len() ==> j[k] == parts[0][k]);
            assert(j[parts[0].len() as int] == sep);
            assert(forall|k: int|
                parts[0].len() + 1 <= k < j.len()
                    ==> j[k] == join_with(rest, sep)[k - parts[0].len() - 1]);
        }
    }
}

/// If `pat` occurs at `k` and nowhere in `[i, k)`, the search from `i`
/// finds exactly `k`.
pub proof fn lemma_find_sub_from_first(s: Seq<char>, pat: Seq<char>, i: int, k: int)
    requires
        pat.len() >= 1,
        0 <= i <= k,
        find_at(s, pat, k),
        forall|j: int| i <= j < k ==> !find_at(s, pat, j),
    ensures
        find_sub_from(s, pat, i) == Some(k),
    decreases k - i,
{
    if i == k {
    } else {
        assert(!find_at(s, pat, i));
        lemma_find_sub_from_first(s, pat, i + 1, k);
    }
}

/// If `pat` occurs nowhere at or after `i`, the search from `i` fails.
pub proof fn lemma_find_sub_from_none(s: Seq<char>, pat: Seq<char>, i: int)
    requires
        pat.len() >= 1,
        0 <= i,
        forall|j: int| i <= j ==> !find_at(s, pat, j),
    ensures
        find_sub_from(s, pat, i) is None,
    decreases s.len() - i,
{
    if i + pat.len() > s.len() {
    } else {
        assert(!find_at(s, pat, i));
        lemma_find_sub_from_none(s, pat, i + 1);
    }
}

/// What the search returns is a first occurrence.
pub proof fn lemma_find_sub_from_sound(s: Seq<char>, pat: Seq<char>, i: int)
    requires
        pat.len() >= 1,
        0 <= i,
    ensures
        match find_sub_from(s, pat, i) {
            Some(k) => find_at(s, pat, k) && i <= k
                && (forall|j: int| i <= j < k ==> !find_at(s, pat, j)),
            None => forall|j: int| i <= j ==> !find_at(s, pat, j),
        },
    decreases s.len() - i,
{
    if i + pat.len() > s.len() {
        assert(forall|j: int| i <= j ==> !find_at(s, pat, j));
    } else if s.subrange(i, i + pat.len() as int) == pat {
    } else {
        assert(!find_at(s, pat, i));
        lemma_find_sub_from_sound(s, pat, i + 1);
    }
}

/// How a split grows when one more character is appended: a separator
/// opens a fresh empty piece, any other character extends the last piece.
proof fn lemma_split_snoc(s: Seq<char>, c: char, sep: char)
    ensures
        c == sep ==> split_on(s.push(c), sep)
            == split_on(s, sep).push(Seq::<char>::empty()),
        c != sep ==> split_on(s.push(c), sep) == split_on(s, sep).update(
            split_on(s, sep).len() - 1,
            split_on(s, sep).last().push(c),
        ),
    decreases s.len(),
{
    lemma_split_nonempty(s, sep);
    if s.len() == 0 {
        let t = s.push(c);
        assert(t[0] == c);
        assert(t.drop_first() =~= Seq::<char>::empty());
        assert(split_on(Seq::<char>::empty(), sep) == seq![Seq::<char>::empty()]);
        if c == sep {
            assert(split_on(t, sep)
                == seq![Seq::<char>::empty()] + seq![Seq::<char>::empty()]);
            assert(split_on(t, sep) =~~= split_on(s, sep).push(Seq::<char>::empty()));
        } else {
            assert(seq![t[0]] + split_on(t.drop_first(), sep)[0] =~= seq![c]);
            assert(split_on(t, sep) =~~= seq![seq![c]]);
            assert(split_on(s, sep).update(0, split_on(s, sep).last().push(c))
                =~~= seq![seq![c]]);
        }
    } else {
        let t = s.push(c);
        assert(t[0] == s[0]);
        assert(t.drop_first() =~= s.drop_first().push(c));
        lemma_split_snoc(s.drop_first(), c, sep);
        lemma_split_nonempty(s.drop_first(), sep);
        let r0 = split_on(s.drop_first(), sep);
        let r1 = split_on(t.drop_first(), sep);
        if s[0] == sep {
            if c == sep {
                assert(split_on(t, sep) == seq![Seq::<char>::empty()] + r1);
                assert(r1 == r0.push(Seq::<char>::empty()));
                assert(split_on(s, sep) == seq![Seq::<char>::empty()] + r0);
                assert(seq![Seq::<char>::empty()] + r0.push(Seq::<char>::empty())
                    =~~= (seq![Seq::<char>::empty()] + r0).push(Seq::<char>::empty()));
            } else {
                assert(r1 == r0.update(r0.len() - 1, r0.last().push(c)));
                assert(split_on(s, sep).last() == r0.last());
                assert(split_on(t, sep) =~~= split_on(s, sep).update(
                    split_on(s, sep).len() - 1,
                    split_on(s, sep).last().push(c),
                ));
            }
        } else {
            if c == sep {
                assert(r1 == r0.push(Seq::<char>::empty()));
                assert(r1[0] == r0[0]);
                assert(r1.drop_first() =~~= r0.drop_first().push(Seq::<char>::empty()));
                assert(split_on(t, sep) =~~= split_on(s, sep).push(Seq::<char>::empty()));
            } else {
                assert(r1 == r0.update(r0.len() - 1, r0.last().push(c)));
                if r0.len() == 1 {
                    assert(r1[0] == r0[0].push(c));
                    assert(r1.drop_first() =~~= r0.drop_first());
                    assert(split_on(s, sep).last() == seq![s[0]] + r0[0]);
                    assert(seq![t[0]] + r1[0] =~= (seq![s[0]] + r0[0]).push(c));
                    assert(split_on(t, sep) =~~= split_on(s, sep).update(
                        split_on(s, sep).len() - 1,
                        split_on(s, sep).last().push(c),
                    ));
                } else {
                    assert(r1[0] == r0[0]);
                    assert(r1.drop_first() =~~= r0.drop_first().update(
                        r0.drop_first().len() - 1,
                        r0.drop_first().last().push(c),
                    ));
                    assert(split_on(s, sep).last() == r0.last());
                    assert(split_on(t, sep) =~~= split_on(s, sep).update(
                        split_on(s, sep).len() - 1,
                        split_on(s, sep).last().push(c),
                    ));
                }
            }
        }
    }
}

/// Relies on `String::push`: it appends exactly one character at the end.
#[verifier::external_body]
pub(crate) fn push_char(s: &mut String, c: char)
    ensures
        final(s)@ == old(s)@.push(c),
{
    s.push(c);
}

/// Split a string on a separator character, as `split_on` describes.
pub fn split_str(s: &str, sep: char) -> (r: Vec<String>)
    ensures
        r.deep_view() == split_on(s@, sep),
{
    let n = s.unicode_len();
    let mut done: Vec<String> = Vec::new();
    let mut cur = String::new();
    let mut i: usize = 0;
    while i < n
        invariant
            i <= n,
            n == s@.len(),
            split_on(s@.subrange(0, i as int), sep) == done.deep_view().push(cur@),
        decreases n - i,
    {
        let c = s.get_char(i);
        proof {
            lemma_split_snoc(s@.subrange(0, i as int), c, sep);
            assert(s@.subrange(0, i + 1 as int)
                =~= s@.subrange(0, i as int).push(s@[i as int]));
        }
        if c == sep {
            let ghost prev_done = done.deep_view();
            let ghost prev_cur = cur@;
            done.push(cur);
            cur = String::new();
            proof {
                assert(done.deep_view() =~~= prev_done.push(prev_cur));
                assert(split_on(s@.subrange(0, i + 1 as int), sep)
                    =~~= done.deep_view().push(cur@));
            }
        } else {
            push_char(&mut cur, c);
            proof {
                assert(split_on(s@.subrange(0, i + 1 as int), sep)
                    =~~= done.deep_view().push(cur@));
            }
        }
        i += 1;
    }
    let ghost prev_done = done.deep_view();
    let ghost prev_cur = cur@;
    done.push(cur);
    proof {
        assert(s@.subrange(0, n as int) =~= s@);
        assert(done.deep_view() =~~= prev_done.push(prev_cur));
    }
    done
}

/// Join strings with a separator character, as `join_with` describes.
pub fn join_strings(parts: &Vec<String>, sep: char) -> (r: String)
    ensures
        r@ == join_with(parts.deep_view(), sep),
{
    let mut out = String::new();
    let mut i: usize = 0;
    while i < parts.len()
        invariant
            i <= parts@.len(),
            parts.deep_view().len() == parts@.len(),
            out@ == join_with(parts.deep_view().take(i as int), sep)
                + if i < parts@.len() && i > 0 { seq![sep] } else { Seq::<char>::empty() },
        decreases parts@.len() - i,
    {
        out.append(parts[i].as_str());
        proof {
            lemma_join_take_snoc(parts.deep_view(), sep, i as int);
            assert(parts.deep_view()[i as int] == parts@[i as int]@);
        }
        if i + 1 < parts.len() {
            push_char(&mut out, sep);
        }
        i += 1;
        proof {
            if i < parts@.len() {
            } else {
                assert(parts.deep_view().take(i as int) =~~= parts.deep_view());
            }
        }
    }
    proof {
        assert(parts.deep_view().take(parts.deep_view().len() as int)
            =~~= parts.deep_view());
        assert(out@ =~= join_with(parts.deep_view(), sep));
    }
    out
}

/// Joining one more piece at the end appends a separator and the piece.
proof fn lemma_join_take_snoc(parts: Seq<Seq<char>>, sep: char, i: int)
    requires
        0 <= i < parts.len(),
    ensures
        join_with(parts.take(i + 1), sep) == if i == 0 {
            parts[0]
        } else {
            join_with(parts.take(i), sep) + seq![sep] + parts[i]
        },
    decreases i,
{
    if i == 0 {
        assert(parts.take(1) =~~= seq![parts[0]]);
        assert(join_with(seq![parts[0]], sep) == parts[0]);
    } else {
        lemma_join_take_tail(parts, sep, i + 1);
    }
}

/// Unrolling `join_with` from the front over a prefix of length `m >= 2`.
proof fn lemma_join_take_tail(parts: Seq<Seq<char>>, sep: char, m: int)
    requires
        2 <= m <= parts.len(),
    ensures
        join_with(parts.take(m), sep)
            == join_with(parts.take(m - 1), sep) + seq![sep] + parts[m - 1],
    decreases m,
{
    let p = parts.take(m);
    if m == 2 {
        assert(p.drop_first() =~~= seq![parts[1]]);
        assert(p[0] == parts[0]);
        assert(join_with(p.drop_first(), sep) == parts[1]);
        assert(join_with(p, sep) == parts[0] + seq![sep] + parts[1]);
        assert(parts.take(1) =~~= seq![parts[0]]);
        assert(join_with(parts.take(1), sep) == parts[0]);
    } else {
        assert(p.drop_first() =~~= parts.drop_first().take(m - 1));
        lemma_join_take_tail(parts.drop_first(), sep, m - 1);
        assert(parts.take(m - 1).drop_first() =~~= parts.drop_first().take(m - 2));
        assert(parts.drop_first().take(m - 1).drop_first()
            =~~= parts.drop_first().drop_first().take(m - 2));
        assert(join_with(p, sep)
            == parts[0] + seq![sep] + join_with(parts.drop_first().take(m - 1), sep));
        assert(join_with(parts.take(m - 1), sep)
            == parts[0] + seq![sep] + join_with(parts.drop_first().take(m - 2), sep));
        assert(join_with(parts.take(m), sep)
            =~= join_with(parts.take(m - 1), sep) + seq![sep] + parts[m - 1]);
    }
}

} // verus!
