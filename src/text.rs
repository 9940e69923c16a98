//! Character-level helpers shared by the fragment parser, the expander and the
//! markup converter: conversion between strings and character vectors, line
//! splitting and substring search.

use vstd::prelude::*;

verus! {

broadcast use vstd::string::group_string_axioms;

/// Relies on `String::from_iter` over `&char`: the string holds exactly the
/// given characters, in order.
#[verifier::external_body]
pub(crate) fn string_of(v: &Vec<char>) -> (r: String)
    ensures
        r@ == v@,
{
    String::from_iter(v.iter())
}

/// The characters of `s`, in order.
pub fn chars_of(s: &str) -> (r: Vec<char>)
    ensures
        r@ == s@,
{
    let mut v: Vec<char> = Vec::new();
    for c in it: s.chars()
        invariant
            it.seq() == s@,
            v@ == it.seq().take(it.index() as int),
    {
        v.push(c);
    }
    v
}


/// A line read up to a newline, without the carriage return that may stand
/// before that newline.
pub open spec fn without_cr(line: Seq<char>) -> Seq<char> {
    if line.len() > 0 && line.last() == '\r' {
        line.drop_last()
    } else {
        line
    }
}

/// Scans `s` from the left, splitting at each newline: the finished lines and
/// the line still being read.
pub open spec fn split_acc(s: Seq<char>) -> (Seq<Seq<char>>, Seq<char>)
    decreases s.len(),
{
    if s.len() == 0 {
        (seq![], seq![])
    } else {
        let (done, cur) = split_acc(s.drop_last());
        if s.last() == '\n' {
            (done.push(without_cr(cur)), seq![])
        } else {
            (done, cur.push(s.last()))
        }
    }
}

/// The lines of `s`: pieces ended by `"\n"` or `"\r\n"`, where a final line
/// ending ends the last line rather than starting an empty one. A carriage
/// return not followed by a newline stays in its line.
pub open spec fn lines_of(s: Seq<char>) -> Seq<Seq<char>> {
    let (done, cur) = split_acc(s);
    if cur.len() == 0 {
        done
    } else {
        done.push(cur)
    }
}

/// Each line followed by a newline, concatenated.
pub open spec fn join_lines(ls: Seq<Seq<char>>) -> Seq<char>
    decreases ls.len(),
{
    if ls.len() == 0 {
        seq![]
    } else {
        join_lines(ls.drop_last()) + ls.last() + seq!['\n']
    }
}

/// `p` occurs in `s` starting at index `i`.
pub open spec fn occurs_at(s: Seq<char>, p: Seq<char>, i: int) -> bool {
    0 <= i && i + p.len() <= s.len() && s.subrange(i, i + p.len()) == p
}

/// `p` occurs somewhere in `s`.
pub open spec fn contains(s: Seq<char>, p: Seq<char>) -> bool {
    exists|i: int| occurs_at(s, p, i)
}

/// `s` begins with `p`.
pub open spec fn starts_with(s: Seq<char>, p: Seq<char>) -> bool {
    occurs_at(s, p, 0)
}

/// The first index at or after `from` where `p` occurs in `s`.
pub open spec fn find_from(s: Seq<char>, p: Seq<char>, from: int) -> Option<int>
    decreases s.len() + 1 - from,
{
    if from < 0 || from + p.len() > s.len() {
        None
    } else if occurs_at(s, p, from) {
        Some(from)
    } else {
        find_from(s, p, from + 1)
    }
}

/// Whether `p` occurs in `s` at index `i`.
pub fn matches_at(s: &Vec<char>, p: &Vec<char>, i: usize) -> (r: bool)
    ensures
        r == occurs_at(s@, p@, i as int),
{
    if i > s.len() || p.len() > s.len() - i {
        return false;
    }
    let n = s.len();
    let mut j: usize = 0;
    while j < p.len()
        invariant
            n == s@.len(),
            i + p@.len() <= n,
            j <= p@.len(),
            forall|k: int| 0 <= k < j ==> s@[i + k] == p@[k],
        decreases p@.len() - j,
    {
        if s[i + j] != p[j] {
            assert(s@.subrange(i as int, i + p@.len())[j as int] != p@[j as int]);
            return false;
        }
        j = j + 1;
    }
    assert(s@.subrange(i as int, i + p@.len()) =~= p@);
    true
}

/// The first index at or after `from` where `p` occurs in `s`.
pub fn find(s: &Vec<char>, p: &Vec<char>, from: usize) -> (r: Option<usize>)
    ensures
        match r {
            Some(i) => find_from(s@, p@, from as int) == Some(i as int),
            None => find_from(s@, p@, from as int) is None,
        },
{
    if p.len() == 0 {
        if from <= s.len() {
            assert(s@.subrange(from as int, from as int) =~= p@);
            return Some(from);
        }
        return None;
    }
    let mut i: usize = from;
    while i < s.len() && p.len() <= s.len() - i
        invariant
            from <= i,
            p@.len() > 0,
            find_from(s@, p@, from as int) == find_from(s@, p@, i as int),
        decreases s@.len() - i,
    {
        if matches_at(s, p, i) {
            return Some(i);
        }
        i = i + 1;
    }
    None
}

/// Splits `s` into its lines.
pub fn split_lines(s: &Vec<char>) -> (r: Vec<Vec<char>>)
    ensures
        r@.len() == lines_of(s@).len(),
        forall|k: int| 0 <= k < r@.len() ==> #[trigger] r@[k]@ == lines_of(s@)[k],
{
    let mut done: Vec<Vec<char>> = Vec::new();
    let mut cur: Vec<char> = Vec::new();
    let mut i: usize = 0;
    while i < s.len()
        invariant
            i <= s@.len(),
            done@.len() == split_acc(s@.take(i as int)).0.len(),
            forall|k: int| 0 <= k < done@.len() ==> #[trigger] done@[k]@ == split_acc(s@.take(i as int)).0[k],
            cur@ == split_acc(s@.take(i as int)).1,
        decreases s@.len() - i,
    {
        let c = s[i];
        assert(s@.take(i + 1).drop_last() =~= s@.take(i as int));
        if c == '\n' {
            if cur.len() > 0 && cur[cur.len() - 1] == '\r' {
                cur.pop();
            }
            assert(cur@ =~= without_cr(split_acc(s@.take(i as int)).1));
            done.push(cur);
            cur = Vec::new();
        } else {
            cur.push(c);
        }
        i = i + 1;
    }
    assert(s@.take(i as int) =~= s@);
    if cur.len() > 0 {
        done.push(cur);
    }
    done
}

/// `s` ends with `p`.
pub open spec fn ends_with(s: Seq<char>, p: Seq<char>) -> bool {
    occurs_at(s, p, s.len() - p.len())
}

/// Appends the characters of `src` to `dst`.
pub fn append_chars(dst: &mut Vec<char>, src: &Vec<char>)
    ensures
        final(dst)@ == old(dst)@ + src@,
{
    let mut i: usize = 0;
    while i < src.len()
        invariant
            i <= src@.len(),
            dst@ == old(dst)@ + src@.take(i as int),
        decreases src@.len() - i,
    {
        dst.push(src[i]);
        i = i + 1;
        assert(src@.take(i as int) =~= src@.take(i - 1).push(src@[i - 1]));
    }
    assert(src@.take(i as int) =~= src@);
}

/// The characters of `s` from index `a` up to, not including, index `b`.
pub fn slice_chars(s: &Vec<char>, a: usize, b: usize) -> (r: Vec<char>)
    requires
        a <= b <= s@.len(),
    ensures
        r@ == s@.subrange(a as int, b as int),
{
    let mut r: Vec<char> = Vec::new();
    let mut i: usize = a;
    while i < b
        invariant
            a <= i <= b <= s@.len(),
            r@ == s@.subrange(a as int, i as int),
        decreases b - i,
    {
        r.push(s[i]);
        i = i + 1;
        assert(r@ =~= s@.subrange(a as int, i as int));
    }
    r
}

/// A text in which `p` does not occur has no occurrence in any of its slices.
pub proof fn lemma_subrange_free(s: Seq<char>, p: Seq<char>, a: int, b: int)
    requires
        !contains(s, p),
        0 <= a <= b <= s.len(),
    ensures
        !contains(s.subrange(a, b), p),
{
    let t = s.subrange(a, b);
    assert forall|i: int| !occurs_at(t, p, i) by {
        if occurs_at(t, p, i) {
            assert(t.subrange(i, i + p.len()) =~= s.subrange(a + i, a + i + p.len()));
            assert(occurs_at(s, p, a + i));
        }
    }
}

/// A text in which `p` does not occur has no occurrence of it in any line.
pub proof fn lemma_lines_free(s: Seq<char>, p: Seq<char>)
    requires
        !contains(s, p),
    ensures
        forall|k: int| 0 <= k < lines_of(s).len() ==> !contains(#[trigger] lines_of(s)[k], p),
{
    lemma_split_acc_free(s, p);
    let (done, cur) = split_acc(s);
    if cur.len() > 0 {
        assert forall|k: int| 0 <= k < lines_of(s).len() implies !contains(
            #[trigger] lines_of(s)[k],
            p,
        ) by {
            if k < done.len() {
                assert(lines_of(s)[k] == done[k]);
            }
        }
    }
}

proof fn lemma_split_acc_free(s: Seq<char>, p: Seq<char>)
    requires
        !contains(s, p),
    ensures
        split_acc(s).1.len() <= s.len(),
        split_acc(s).1 == s.subrange(s.len() - split_acc(s).1.len(), s.len() as int),
        !contains(split_acc(s).1, p),
        forall|k: int| 0 <= k < split_acc(s).0.len() ==> !contains(#[trigger] split_acc(s).0[k], p),
    decreases s.len(),
{
    assert(p.len() > 0) by {
        if p.len() == 0 {
            assert(s.subrange(0, 0) =~= p);
            assert(occurs_at(s, p, 0));
        }
    }
    if s.len() == 0 {
        assert(s.subrange(0, 0) =~= s);
    } else {
        let s0 = s.drop_last();
        lemma_subrange_free(s, p, 0, s.len() - 1);
        assert(s.subrange(0, s.len() - 1) =~= s0);
        lemma_split_acc_free(s0, p);
        let (done, cur) = split_acc(s0);
        if s.last() == '\n' {
            if cur.len() > 0 && cur.last() == '\r' {
                lemma_subrange_free(cur, p, 0, cur.len() - 1);
                assert(cur.subrange(0, cur.len() - 1) =~= without_cr(cur));
            }
            assert(s.subrange(s.len() as int, s.len() as int) =~= seq![]);
            assert forall|k: int| 0 <= k < split_acc(s).0.len() implies !contains(
                #[trigger] split_acc(s).0[k],
                p,
            ) by {
                if k < done.len() {
                    assert(split_acc(s).0[k] == done[k]);
                }
            }
            assert forall|i: int| !occurs_at(seq![], p, i) by {}
        } else {
            assert(cur.push(s.last()) =~= s.subrange(s.len() - cur.len() - 1, s.len() as int));
            lemma_subrange_free(s, p, s.len() - cur.len() - 1, s.len() as int);
        }
    }
}

/// Appends the characters of `s` to `dst`.
pub fn push_str(dst: &mut Vec<char>, s: &str)
    ensures
        final(dst)@ == old(dst)@ + s@,
{
    let v = chars_of(s);
    append_chars(dst, &v);
}

/// `s` with every occurrence of `pat` replaced by `with`, scanning from the
/// left; occurrences do not overlap. An empty `pat` changes nothing.
pub open spec fn replace_all(s: Seq<char>, pat: Seq<char>, with: Seq<char>) -> Seq<char>
    decreases s.len(),
{
    if pat.len() == 0 {
        s
    } else {
        match find_from(s, pat, 0) {
            Some(i) => if 0 <= i && i + pat.len() <= s.len() {
                s.take(i) + with + replace_all(s.skip(i + pat.len()), pat, with)
            } else {
                s
            },
            None => s,
        }
    }
}

/// Searching a suffix of `s` is searching `s` from where the suffix starts.
pub proof fn lemma_find_shift(s: Seq<char>, p: Seq<char>, a: int, j: int)
    requires
        0 <= a <= s.len(),
        0 <= j,
    ensures
        find_from(s.skip(a), p, j) == match find_from(s, p, a + j) {
            Some(i) => Some(i - a),
            None => None::<int>,
        },
    decreases s.len() + 1 - a - j,
{
    let t = s.skip(a);
    if j + p.len() > t.len() {
    } else {
        assert(t.subrange(j, j + p.len()) =~= s.subrange(a + j, a + j + p.len()));
        if !occurs_at(t, p, j) {
            lemma_find_shift(s, p, a, j + 1);
        }
    }
}

/// Replaces every occurrence of `pat` in `s` by `with`.
pub fn replace_chars(s: &Vec<char>, pat: &Vec<char>, with: &Vec<char>) -> (r: Vec<char>)
    ensures
        r@ == replace_all(s@, pat@, with@),
{
    let n = s.len();
    if pat.len() == 0 {
        return slice_chars(s, 0, n);
    }
    let mut out: Vec<char> = Vec::new();
    let mut from: usize = 0;
    assert(s@.skip(0) =~= s@);
    loop
        invariant
            n == s@.len(),
            pat@.len() > 0,
            from <= n,
            out@ + replace_all(s@.skip(from as int), pat@, with@) == replace_all(s@, pat@, with@),
        decreases n - from,
    {
        let ghost rest = s@.skip(from as int);
        proof {
            lemma_find_shift(s@, pat@, from as int, 0);
            lemma_find_from(s@, pat@, from as int);
        }
        match find(s, pat, from) {
            None => {
                let tail = slice_chars(s, from, n);
                assert(tail@ =~= rest);
                append_chars(&mut out, &tail);
                return out;
            },
            Some(i) => {
                let piece = slice_chars(s, from, i);
                assert(piece@ =~= rest.take(i - from));
                append_chars(&mut out, &piece);
                append_chars(&mut out, with);
                let ghost next = i + pat@.len();
                assert(rest.skip(i - from + pat@.len()) =~= s@.skip(next));
                assert(out@ + replace_all(s@.skip(next), pat@, with@) =~= replace_all(s@, pat@, with@));
                from = i + pat.len();
            },
        }
    }
}

/// `text` with every occurrence of `pattern` replaced by `with`, scanning from
/// the left. An empty `pattern` changes nothing.
pub fn replace_text(text: &str, pattern: &str, with: &str) -> (r: String)
    ensures
        r@ == replace_all(text@, pattern@, with@),
{
    let r = replace_chars(&chars_of(text), &chars_of(pattern), &chars_of(with));
    string_of(&r)
}

/// A non-empty text without a newline is one line.
pub proof fn lemma_single_line(s: Seq<char>)
    requires
        s.len() > 0,
        !s.contains('\n'),
    ensures
        lines_of(s) == seq![s],
{
    lemma_split_acc_no_newline(s);
}

proof fn lemma_split_acc_no_newline(s: Seq<char>)
    requires
        !s.contains('\n'),
    ensures
        split_acc(s) == (Seq::<Seq<char>>::empty(), s),
    decreases s.len(),
{
    if s.len() > 0 {
        let s0 = s.drop_last();
        assert(!s0.contains('\n')) by {
            if s0.contains('\n') {
                let i = choose|i: int| 0 <= i < s0.len() && s0[i] == '\n';
                assert(s[i] == '\n');
            }
        }
        assert(s.last() == s[s.len() - 1]);
        lemma_split_acc_no_newline(s0);
        assert(s0.push(s.last()) =~= s);
    } else {
        assert(s =~= seq![]);
    }
}

/// If `p` first occurs at or after `from` at index `i`, it occurs there, and
/// nowhere between `from` and `i`; if it does not, it occurs nowhere at or after `from`.
pub proof fn lemma_find_from(s: Seq<char>, p: Seq<char>, from: int)
    requires
        0 <= from,
    ensures
        match find_from(s, p, from) {
            Some(i) => from <= i && occurs_at(s, p, i) && forall|j: int|
                from <= j < i ==> !occurs_at(s, p, j),
            None => forall|j: int| from <= j ==> !occurs_at(s, p, j),
        },
    decreases s.len() + 1 - from,
{
    if from + p.len() > s.len() {
    } else if occurs_at(s, p, from) {
    } else {
        lemma_find_from(s, p, from + 1);
    }
}

/// The line being read is the end of the text scanned so far.
proof fn lemma_split_acc_suffix(s: Seq<char>)
    ensures
        split_acc(s).1.len() <= s.len(),
        split_acc(s).1 == s.subrange(s.len() - split_acc(s).1.len(), s.len() as int),
    decreases s.len(),
{
    if s.len() == 0 {
        assert(s.subrange(0, 0) =~= s);
    } else {
        lemma_split_acc_suffix(s.drop_last());
        let cur = split_acc(s.drop_last()).1;
        if s.last() == '\n' {
            assert(s.subrange(s.len() as int, s.len() as int) =~= seq![]);
        } else {
            assert(cur.push(s.last()) =~= s.subrange(s.len() - cur.len() - 1, s.len() as int));
        }
    }
}

/// Rejoining the lines of a text gives the text back when the text is empty
/// or ends in a newline, and holds no carriage return before a newline.
pub proof fn lemma_join_lines(s: Seq<char>)
    requires
        s.len() == 0 || s.last() == '\n',
        !contains(s, seq!['\r', '\n']),
    ensures
        join_lines(lines_of(s)) == s,
{
    lemma_split_acc_join(s);
}

proof fn lemma_split_acc_join(s: Seq<char>)
    requires
        !contains(s, seq!['\r', '\n']),
    ensures
        join_lines(split_acc(s).0) + split_acc(s).1 == s,
    decreases s.len(),
{
    if s.len() > 0 {
        let s0 = s.drop_last();
        lemma_subrange_free(s, seq!['\r', '\n'], 0, s.len() - 1);
        assert(s.subrange(0, s.len() - 1) =~= s0);
        lemma_split_acc_join(s0);
        let (done, cur) = split_acc(s0);
        if s.last() == '\n' {
            lemma_split_acc_suffix(s0);
            if cur.len() > 0 && cur.last() == '\r' {
                assert(s[s.len() - 2] == cur.last());
                assert(s.subrange(s.len() - 2, s.len() as int) =~= seq!['\r', '\n']);
                assert(occurs_at(s, seq!['\r', '\n'], s.len() - 2));
            }
            assert(without_cr(cur) == cur);
            assert(join_lines(done.push(cur)) == join_lines(done) + cur + seq!['\n']) by {
                assert(done.push(cur).drop_last() =~= done);
            }
            assert(s =~= s0.push('\n'));
        } else {
            assert(s =~= s0.push(s.last()));
        }
        assert(join_lines(split_acc(s).0) + split_acc(s).1 =~= s);
    } else {
        assert(join_lines(split_acc(s).0) + split_acc(s).1 =~= s);
    }
}

} // verus!
