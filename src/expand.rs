//! Placeholder expansion: each `{{component: NAME}}` in a text is replaced by
//! the body of `NAME` from a fragment table, and the bodies are expanded in
//! turn, up to a bounded number of substitutions.

use vstd::prelude::*;
use crate::fragments::FragmentTable;
use crate::text::{
    append_chars, chars_of, contains, find, find_from, join_lines, lemma_find_from,
    lemma_join_lines, lemma_lines_free, lines_of, slice_chars, split_lines, string_of,
};

verus! {

/// The number of substitutions made in one line when the caller does not choose.
pub const DEFAULT_MAX_DEPTH: usize = 10;

/// The text that opens a placeholder.
pub open spec fn placeholder_open() -> Seq<char> {
    seq!['{', '{', 'c', 'o', 'm', 'p', 'o', 'n', 'e', 'n', 't', ':']
}

/// The text that closes a placeholder.
pub open spec fn placeholder_close() -> Seq<char> {
    seq!['}', '}']
}

/// Characters removed from a placeholder's name before it is looked up.
pub open spec fn is_blank(c: char) -> bool {
    c == ' ' || c == '\t' || c == '\r' || c == '\n'
}

/// `s` without its blank characters.
pub open spec fn strip_blanks(s: Seq<char>) -> Seq<char>
    decreases s.len(),
{
    if s.len() == 0 {
        s
    } else if is_blank(s.last()) {
        strip_blanks(s.drop_last())
    } else {
        strip_blanks(s.drop_last()).push(s.last())
    }
}

/// Where the first complete placeholder of `t` starts and where its closing
/// braces start.
pub open spec fn first_placeholder(t: Seq<char>) -> Option<(int, int)> {
    match find_from(t, placeholder_open(), 0) {
        None => None,
        Some(p) => match find_from(t, placeholder_close(), p + placeholder_open().len()) {
            None => None,
            Some(q) => Some((p, q)),
        },
    }
}

/// The name that the placeholder spanning `p..q+2` refers to.
pub open spec fn placeholder_name(t: Seq<char>, p: int, q: int) -> Seq<char> {
    strip_blanks(t.subrange(p + placeholder_open().len(), q))
}

/// One substitution: the first complete placeholder of `t` is replaced by the
/// body it names, or removed when the table has no such name.
pub open spec fn substitute_once(t: Seq<char>, table: Map<Seq<char>, Seq<char>>) -> Seq<char> {
    match first_placeholder(t) {
        None => t,
        Some((p, q)) => {
            let name = placeholder_name(t, p, q);
            let body = if table.dom().contains(name) {
                table[name]
            } else {
                seq![]
            };
            t.take(p) + body + t.subrange(q + placeholder_close().len(), t.len() as int)
        },
    }
}

/// `k` substitutions in a row.
pub open spec fn substitute_n(t: Seq<char>, table: Map<Seq<char>, Seq<char>>, k: nat) -> Seq<char>
    decreases k,
{
    if k == 0 {
        t
    } else {
        substitute_n(substitute_once(t, table), table, (k - 1) as nat)
    }
}

/// A warning raised while expanding, as the contracts see it.
pub enum ExpandWarningView {
    MissingComponent(Seq<char>),
    DepthLimit,
    UnterminatedPlaceholder,
}

/// A warning raised while expanding. None of them stops the expansion.
#[derive(Debug, Clone, PartialEq, Eq)]
pub enum ExpandWarning {
    /// A placeholder named a component that the table does not define; it was removed.
    MissingComponent { name: String },
    /// The substitution budget ran out while a placeholder was left.
    DepthLimit,
    /// A placeholder opens and is never closed; the text was left as it stood.
    UnterminatedPlaceholder,
}

impl View for ExpandWarning {
    type V = ExpandWarningView;

    open spec fn view(&self) -> ExpandWarningView {
        match self {
            ExpandWarning::MissingComponent { name } => ExpandWarningView::MissingComponent(name@),
            ExpandWarning::DepthLimit => ExpandWarningView::DepthLimit,
            ExpandWarning::UnterminatedPlaceholder => ExpandWarningView::UnterminatedPlaceholder,
        }
    }
}

/// The views of a sequence of warnings.
pub open spec fn warning_views(ws: Seq<ExpandWarning>) -> Seq<ExpandWarningView> {
    ws.map_values(|w: ExpandWarning| w@)
}

/// Expands one text with at most `depth` substitutions: the text that results
/// and the warnings raised, in order.
pub open spec fn expand_text(t: Seq<char>, table: Map<Seq<char>, Seq<char>>, depth: nat) -> (
    Seq<char>,
    Seq<ExpandWarningView>,
)
    decreases depth,
{
    match find_from(t, placeholder_open(), 0) {
        None => (t, seq![]),
        Some(p) => if depth == 0 {
            (t, seq![ExpandWarningView::DepthLimit])
        } else {
            match first_placeholder(t) {
                None => (t, seq![ExpandWarningView::UnterminatedPlaceholder]),
                Some((p, q)) => {
                    let name = placeholder_name(t, p, q);
                    let (r, w) = expand_text(substitute_once(t, table), table, (depth - 1) as nat);
                    if table.dom().contains(name) {
                        (r, w)
                    } else {
                        (r, seq![ExpandWarningView::MissingComponent(name)] + w)
                    }
                },
            }
        },
    }
}

/// Expands each line of a document and ends each result with a newline.
pub open spec fn expand_lines(ls: Seq<Seq<char>>, table: Map<Seq<char>, Seq<char>>, depth: nat) -> (
    Seq<char>,
    Seq<ExpandWarningView>,
)
    decreases ls.len(),
{
    if ls.len() == 0 {
        (seq![], seq![])
    } else {
        let (t, w) = expand_lines(ls.drop_last(), table, depth);
        let (r, v) = expand_text(ls.last(), table, depth);
        (t + r + seq!['\n'], w + v)
    }
}

/// Expands a whole document, line by line.
pub open spec fn expand_document(x: Seq<char>, table: Map<Seq<char>, Seq<char>>, depth: nat) -> (
    Seq<char>,
    Seq<ExpandWarningView>,
) {
    expand_lines(lines_of(x), table, depth)
}

/// An expanded text and the warnings raised on the way.
pub struct Expansion {
    pub text: String,
    pub warnings: Vec<ExpandWarning>,
}

/// `s` without its blank characters.
fn remove_blanks(s: &Vec<char>) -> (r: Vec<char>)
    ensures
        r@ == strip_blanks(s@),
{
    let mut r: Vec<char> = Vec::new();
    let mut i: usize = 0;
    while i < s.len()
        invariant
            i <= s@.len(),
            r@ == strip_blanks(s@.take(i as int)),
        decreases s@.len() - i,
    {
        assert(s@.take(i + 1).drop_last() =~= s@.take(i as int));
        let c = s[i];
        if !(c == ' ' || c == '\t' || c == '\r' || c == '\n') {
            r.push(c);
        }
        i = i + 1;
    }
    assert(s@.take(i as int) =~= s@);
    r
}

/// Expands `t` with at most `depth` substitutions, adding the warnings raised
/// to `warnings`.
fn expand_chars(
    t: Vec<char>,
    table: &FragmentTable,
    depth: usize,
    warnings: &mut Vec<ExpandWarning>,
) -> (r: Vec<char>)
    ensures
        r@ == expand_text(t@, table@, depth as nat).0,
        warning_views(final(warnings)@) == warning_views(old(warnings)@) + expand_text(
            t@,
            table@,
            depth as nat,
        ).1,
{
    let open = vec!['{', '{', 'c', 'o', 'm', 'p', 'o', 'n', 'e', 'n', 't', ':'];
    let close = vec!['}', '}'];
    assert(open@ =~= placeholder_open());
    assert(close@ =~= placeholder_close());
    let ghost t0 = t@;
    let ghost goal = expand_text(t@, table@, depth as nat);
    let ghost before = warning_views(warnings@);
    assert(placeholder_open().len() == 12);
    assert(placeholder_close().len() == 2);
    let mut cur = t;
    let mut left: usize = depth;
    loop
        invariant
            open@ == placeholder_open(),
            close@ == placeholder_close(),
            placeholder_open().len() == 12,
            placeholder_close().len() == 2,
            t0 == t@,
            goal == expand_text(t0, table@, depth as nat),
            before == warning_views(old(warnings)@),
            goal.0 == expand_text(cur@, table@, left as nat).0,
            warning_views(warnings@) + expand_text(cur@, table@, left as nat).1 == before + goal.1,
        decreases left,
    {
        let start = find(&cur, &open, 0);
        let p = match start {
            None => {
                assert(warning_views(warnings@) + seq![] =~= warning_views(warnings@));
                return cur;
            },
            Some(p) => p,
        };
        proof {
            lemma_find_from(cur@, placeholder_open(), 0);
        }
        let n = cur.len();
        assert(p + 12 <= n);
        if left == 0 {
            let ghost prev = warnings@;
            warnings.push(ExpandWarning::DepthLimit);
            assert(warning_views(warnings@) =~= warning_views(prev) + seq![
                ExpandWarningView::DepthLimit,
            ]);
            return cur;
        }
        let q = match find(&cur, &close, p + 12) {
            None => {
                let ghost prev = warnings@;
                warnings.push(ExpandWarning::UnterminatedPlaceholder);
                assert(warning_views(warnings@) =~= warning_views(prev) + seq![
                    ExpandWarningView::UnterminatedPlaceholder,
                ]);
                return cur;
            },
            Some(q) => q,
        };
        proof {
            lemma_find_from(cur@, placeholder_close(), p + 12);
        }
        assert(q + 2 <= n);
        let raw = slice_chars(&cur, p + 12, q);
        let name = remove_blanks(&raw);
        let mut next = slice_chars(&cur, 0, p);
        match table.lookup(&name) {
            Some(body) => {
                append_chars(&mut next, body);
            },
            None => {
                let ghost prev = warnings@;
                warnings.push(ExpandWarning::MissingComponent { name: string_of(&name) });
                assert(warning_views(warnings@) =~= warning_views(prev) + seq![
                    ExpandWarningView::MissingComponent(name@),
                ]);
            },
        }
        let rest = slice_chars(&cur, q + 2, cur.len());
        append_chars(&mut next, &rest);
        assert(cur@.take(p as int) =~= cur@.subrange(0, p as int));
        assert(next@ =~= substitute_once(cur@, table@));
        cur = next;
        left = left - 1;
    }
}

/// Expands the placeholders of one line, making at most `max_depth`
/// substitutions.
pub fn expand_line(line: &str, fragments: &FragmentTable, max_depth: usize) -> (r: Expansion)
    ensures
        r.text@ == expand_text(line@, fragments@, max_depth as nat).0,
        warning_views(r.warnings@) == expand_text(line@, fragments@, max_depth as nat).1,
{
    let mut warnings: Vec<ExpandWarning> = Vec::new();
    let t = expand_chars(chars_of(line), fragments, max_depth, &mut warnings);
    assert(warning_views(Seq::<ExpandWarning>::empty()) =~= seq![]);
    Expansion { text: string_of(&t), warnings }
}

/// Expands the placeholders of every line of `text`, making at most
/// `max_depth` substitutions in each line, and ends each resulting line with a
/// newline. Placeholders never span lines of the input.
pub fn expand(text: &str, fragments: &FragmentTable, max_depth: usize) -> (r: Expansion)
    ensures
        r.text@ == expand_document(text@, fragments@, max_depth as nat).0,
        warning_views(r.warnings@) == expand_document(text@, fragments@, max_depth as nat).1,
{
    let chars = chars_of(text);
    let lines = split_lines(&chars);
    let ghost ls = lines_of(text@);
    let mut out: Vec<char> = Vec::new();
    let mut warnings: Vec<ExpandWarning> = Vec::new();
    let mut i: usize = 0;
    assert(warning_views(warnings@) =~= seq![]);
    while i < lines.len()
        invariant
            ls == lines_of(text@),
            lines@.len() == ls.len(),
            forall|k: int| 0 <= k < lines@.len() ==> #[trigger] lines@[k]@ == ls[k],
            i <= ls.len(),
            out@ == expand_lines(ls.take(i as int), fragments@, max_depth as nat).0,
            warning_views(warnings@) == expand_lines(ls.take(i as int), fragments@, max_depth as nat).1,
        decreases ls.len() - i,
    {
        assert(ls.take(i + 1).drop_last() =~= ls.take(i as int));
        assert(ls.take(i + 1).last() == ls[i as int]);
        let line = slice_chars(&lines[i], 0, lines[i].len());
        assert(line@ =~= ls[i as int]);
        let r = expand_chars(line, fragments, max_depth, &mut warnings);
        append_chars(&mut out, &r);
        out.push('\n');
        i = i + 1;
    }
    assert(ls.take(i as int) =~= ls);
    Expansion { text: string_of(&out), warnings }
}

/// A text without a placeholder opening is expanded to itself, with no warning.
proof fn lemma_expand_text_free(t: Seq<char>, table: Map<Seq<char>, Seq<char>>, depth: nat)
    requires
        !contains(t, placeholder_open()),
    ensures
        expand_text(t, table, depth) == (t, Seq::<ExpandWarningView>::empty()),
{
    lemma_find_from(t, placeholder_open(), 0);
    if let Some(p) = find_from(t, placeholder_open(), 0) {
        assert(contains(t, placeholder_open()));
    }
}

/// Lines without placeholder openings are expanded to themselves, each
/// followed by a newline, with no warning.
proof fn lemma_expand_lines_free(ls: Seq<Seq<char>>, table: Map<Seq<char>, Seq<char>>, depth: nat)
    requires
        forall|k: int| 0 <= k < ls.len() ==> !contains(#[trigger] ls[k], placeholder_open()),
    ensures
        expand_lines(ls, table, depth) == (join_lines(ls), Seq::<ExpandWarningView>::empty()),
    decreases ls.len(),
{
    if ls.len() > 0 {
        assert(ls.last() == ls[ls.len() - 1]);
        lemma_expand_lines_free(ls.drop_last(), table, depth);
        lemma_expand_text_free(ls.last(), table, depth);
        assert(Seq::<ExpandWarningView>::empty() + Seq::<ExpandWarningView>::empty() =~= Seq::<
            ExpandWarningView,
        >::empty());
    }
}

/// Expanding a document once expansion has resolved every placeholder changes
/// nothing: the text comes back unchanged and no warning is raised. (A
/// carriage return before a newline would be dropped by the second pass, as
/// line ends are read as `"\r\n"` or `"\n"` and written as `"\n"`.)
pub proof fn lemma_expand_idempotent(x: Seq<char>, table: Map<Seq<char>, Seq<char>>, depth: nat)
    requires
        !contains(expand_document(x, table, depth).0, placeholder_open()),
        !contains(expand_document(x, table, depth).0, seq!['\r', '\n']),
    ensures
        expand_document(expand_document(x, table, depth).0, table, depth) == (
            expand_document(x, table, depth).0,
            Seq::<ExpandWarningView>::empty(),
        ),
{
    let ls = lines_of(x);
    let out = expand_document(x, table, depth).0;
    if ls.len() > 0 {
        let (t, w) = expand_lines(ls.drop_last(), table, depth);
        let (r, v) = expand_text(ls.last(), table, depth);
        assert((t + r + seq!['\n']).last() == '\n');
    }
    lemma_join_lines(out);
    lemma_lines_free(out, placeholder_open());
    lemma_expand_lines_free(lines_of(out), table, depth);
}

/// A document without placeholders expands to its lines, each ended by a
/// single newline, and raises no warning.
pub proof fn lemma_expand_plain(x: Seq<char>, table: Map<Seq<char>, Seq<char>>, depth: nat)
    requires
        !contains(x, placeholder_open()),
    ensures
        expand_document(x, table, depth) == (
            join_lines(lines_of(x)),
            Seq::<ExpandWarningView>::empty(),
        ),
{
    lemma_lines_free(x, placeholder_open());
    lemma_expand_lines_free(lines_of(x), table, depth);
}

/// Expansion ends after at most `depth` substitutions, whatever the table,
/// also when a component's body refers to the component itself: the text it
/// returns is the input after `k <= depth` single substitutions.
pub proof fn lemma_expand_bounded(t: Seq<char>, table: Map<Seq<char>, Seq<char>>, depth: nat)
    ensures
        exists|k: nat| k <= depth && expand_text(t, table, depth).0 == substitute_n(t, table, k),
    decreases depth,
{
    if find_from(t, placeholder_open(), 0) is None || depth == 0 || first_placeholder(t) is None {
        assert(expand_text(t, table, depth).0 == substitute_n(t, table, 0));
    } else {
        let next = substitute_once(t, table);
        lemma_expand_bounded(next, table, (depth - 1) as nat);
        let k = choose|k: nat|
            k <= depth - 1 && expand_text(next, table, (depth - 1) as nat).0 == substitute_n(
                next,
                table,
                k,
            );
        assert(substitute_n(t, table, k + 1) == substitute_n(next, table, k));
        assert(expand_text(t, table, depth).0 == substitute_n(t, table, k + 1));
    }
}

} // verus!
