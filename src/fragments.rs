//! The fragment table: named component bodies, and the parser that reads them
//! from a definition document.

use vstd::prelude::*;
use crate::text::{
    append_chars, chars_of, ends_with, lines_of, matches_at, split_lines, starts_with, string_of,
};

verus! {

/// The map that a sequence of definitions gives when applied in order: a
/// later definition of a name replaces an earlier one.
pub open spec fn defined_map(es: Seq<(Vec<char>, Vec<char>)>) -> Map<Seq<char>, Seq<char>>
    decreases es.len(),
{
    if es.len() == 0 {
        Map::empty()
    } else {
        defined_map(es.drop_last()).insert(es.last().0@, es.last().1@)
    }
}

/// A mapping from component names to component bodies.
///
/// Names are compared character by character: they are case- and
/// whitespace-sensitive.
pub struct FragmentTable {
    entries: Vec<(Vec<char>, Vec<char>)>,
}

impl View for FragmentTable {
    type V = Map<Seq<char>, Seq<char>>;

    closed spec fn view(&self) -> Map<Seq<char>, Seq<char>> {
        defined_map(self.entries@)
    }
}

/// When no definition after index `i` has the name `k`, the whole sequence
/// and its first `i` definitions agree on `k`.
proof fn lemma_defined_map_prefix(es: Seq<(Vec<char>, Vec<char>)>, i: int, k: Seq<char>)
    requires
        0 <= i <= es.len(),
        forall|j: int| i <= j < es.len() ==> (#[trigger] es[j]).0@ != k,
    ensures
        defined_map(es).dom().contains(k) == defined_map(es.take(i)).dom().contains(k),
        defined_map(es).dom().contains(k) ==> defined_map(es)[k] == defined_map(es.take(i))[k],
    decreases es.len(),
{
    if es.len() == i {
        assert(es.take(i) =~= es);
    } else {
        assert(es.drop_last().take(i) =~= es.take(i));
        assert(es.last() == es[es.len() - 1]);
        lemma_defined_map_prefix(es.drop_last(), i, k);
    }
}

/// Whether two character sequences are equal.
fn same_chars(a: &Vec<char>, b: &Vec<char>) -> (r: bool)
    ensures
        r == (a@ == b@),
{
    if a.len() != b.len() {
        return false;
    }
    let r = matches_at(a, b, 0);
    assert(a@.subrange(0, a@.len() as int) =~= a@);
    r
}

impl FragmentTable {
    /// An empty table.
    pub fn new() -> (r: FragmentTable)
        ensures
            r@ == Map::<Seq<char>, Seq<char>>::empty(),
    {
        FragmentTable { entries: Vec::new() }
    }

    /// Defines `name` as `body`, replacing any earlier body of that name.
    pub fn insert_chars(&mut self, name: Vec<char>, body: Vec<char>)
        ensures
            final(self)@ == old(self)@.insert(name@, body@),
    {
        let ghost prev = self.entries@;
        self.entries.push((name, body));
        assert(self.entries@.drop_last() =~= prev);
    }

    /// Defines `name` as `body`, replacing any earlier body of that name.
    pub fn insert(&mut self, name: &str, body: &str)
        ensures
            final(self)@ == old(self)@.insert(name@, body@),
    {
        self.insert_chars(chars_of(name), chars_of(body));
    }

    /// The body defined for `name`, if any.
    pub fn get(&self, name: &str) -> (r: Option<String>)
        ensures
            match r {
                Some(b) => self@.dom().contains(name@) && self@[name@] == b@,
                None => !self@.dom().contains(name@),
            },
    {
        let key = chars_of(name);
        match self.lookup(&key) {
            Some(body) => Some(string_of(body)),
            None => None,
        }
    }

    /// The body defined for `name`, if any.
    pub fn lookup(&self, name: &Vec<char>) -> (r: Option<&Vec<char>>)
        ensures
            match r {
                Some(b) => self@.dom().contains(name@) && self@[name@] == b@,
                None => !self@.dom().contains(name@),
            },
    {
        let mut i: usize = self.entries.len();
        while i > 0
            invariant
                i <= self.entries@.len(),
                forall|j: int| i <= j < self.entries@.len() ==> (#[trigger] self.entries@[j]).0@ != name@,
            decreases i,
        {
            if same_chars(&self.entries[i - 1].0, name) {
                proof {
                    let es = self.entries@;
                    lemma_defined_map_prefix(es, i as int, name@);
                    assert(es.take(i as int).drop_last() =~= es.take(i - 1));
                }
                return Some(&self.entries[i - 1].1);
            }
            i = i - 1;
        }
        proof {
            lemma_defined_map_prefix(self.entries@, 0, name@);
        }
        None
    }
}

/// The text that starts a marker line.
pub open spec fn open_prefix() -> Seq<char> {
    seq!['{', '{']
}

/// The text that starts a closing marker line.
pub open spec fn close_prefix() -> Seq<char> {
    seq!['{', '{', '/']
}

/// The text that ends a marker line.
pub open spec fn marker_end() -> Seq<char> {
    seq!['}', '}']
}

/// `s` without its curly braces.
pub open spec fn strip_braces(s: Seq<char>) -> Seq<char>
    decreases s.len(),
{
    if s.len() == 0 {
        s
    } else if s.last() == '{' || s.last() == '}' {
        strip_braces(s.drop_last())
    } else {
        strip_braces(s.drop_last()).push(s.last())
    }
}

/// A line that opens a block: two braces not followed by a slash.
pub open spec fn is_open_line(line: Seq<char>) -> bool {
    starts_with(line, open_prefix()) && !starts_with(line, close_prefix())
}

/// A line that closes a block: two braces and a slash.
pub open spec fn is_close_line(line: Seq<char>) -> bool {
    starts_with(line, close_prefix())
}

/// An opening line that also ends in two braces and names something.
pub open spec fn is_well_formed_open(line: Seq<char>) -> bool {
    ends_with(line, marker_end()) && strip_braces(line).len() > 0
}

/// The parser's state after the given lines: the table built so far, whether
/// a block is open, its name and the body read so far.
pub open spec fn parse_state(ls: Seq<Seq<char>>) -> (
    Map<Seq<char>, Seq<char>>,
    bool,
    Seq<char>,
    Seq<char>,
)
    decreases ls.len(),
{
    if ls.len() == 0 {
        (Map::empty(), false, seq![], seq![])
    } else {
        let (t, inside, name, body) = parse_state(ls.drop_last());
        let line = ls.last();
        if !inside {
            if is_open_line(line) {
                (t, true, strip_braces(line), seq![])
            } else {
                (t, false, name, body)
            }
        } else if is_close_line(line) {
            (t.insert(name, body), false, seq![], seq![])
        } else {
            (t, true, name, body + line + seq!['\n'])
        }
    }
}

/// Line `k` of `ls` stands outside any block and opens one without being a
/// well-formed marker.
pub open spec fn malformed_at(ls: Seq<Seq<char>>, k: int) -> bool {
    &&& 0 <= k < ls.len()
    &&& !parse_state(ls.take(k)).1
    &&& is_open_line(ls[k])
    &&& !is_well_formed_open(ls[k])
}

/// Why a definition document could not be read.
#[derive(Debug, Clone, PartialEq, Eq)]
pub enum FragmentError {
    /// The line, counted from 1, opens a block but is not of the form `{{NAME}}`.
    MalformedMarker { line: usize },
    /// The document ends inside the block of this name.
    UnclosedBlock { name: String },
}

/// `s` without its curly braces.
fn remove_braces(s: &Vec<char>) -> (r: Vec<char>)
    ensures
        r@ == strip_braces(s@),
{
    let mut r: Vec<char> = Vec::new();
    let mut i: usize = 0;
    while i < s.len()
        invariant
            i <= s@.len(),
            r@ == strip_braces(s@.take(i as int)),
        decreases s@.len() - i,
    {
        assert(s@.take(i + 1).drop_last() =~= s@.take(i as int));
        let c = s[i];
        if c != '{' && c != '}' {
            r.push(c);
        }
        i = i + 1;
    }
    assert(s@.take(i as int) =~= s@);
    r
}

/// Reads a definition document into a table.
///
/// A line `{{NAME}}` opens the block of `NAME` (braces are removed from the
/// name, nothing else); a line starting with `{{/` closes it; the lines in
/// between, each followed by a newline, form its body. Outside a block, lines
/// that open nothing are ignored. Inside a block only a closing line is
/// recognised, so a body may hold placeholder lines.
pub fn build_fragments(definitions: &str) -> (r: Result<FragmentTable, FragmentError>)
    ensures
        ({
            let ls = lines_of(definitions@);
            let st = parse_state(ls);
            match r {
                Ok(t) => (forall|k: int| !malformed_at(ls, k)) && !st.1 && t@ == st.0,
                Err(FragmentError::MalformedMarker { line }) => {
                    &&& 1 <= line <= ls.len()
                    &&& malformed_at(ls, line - 1)
                    &&& forall|k: int| k < line - 1 ==> !malformed_at(ls, k)
                },
                Err(FragmentError::UnclosedBlock { name }) => {
                    &&& forall|k: int| !malformed_at(ls, k)
                    &&& st.1
                    &&& name@ == st.2
                },
            }
        }),
{
    let text = chars_of(definitions);
    let lines = split_lines(&text);
    let ghost ls = lines_of(definitions@);
    let open = vec!['{', '{'];
    let close = vec!['{', '{', '/'];
    let end = vec!['}', '}'];
    assert(open@ =~= open_prefix());
    assert(close@ =~= close_prefix());
    assert(end@ =~= marker_end());
    let mut table = FragmentTable::new();
    let mut inside = false;
    let mut name: Vec<char> = Vec::new();
    let mut body: Vec<char> = Vec::new();
    let mut i: usize = 0;
    while i < lines.len()
        invariant
            ls == lines_of(definitions@),
            lines@.len() == ls.len(),
            forall|k: int| 0 <= k < lines@.len() ==> #[trigger] lines@[k]@ == ls[k],
            open@ == open_prefix(),
            close@ == close_prefix(),
            end@ == marker_end(),
            i <= ls.len(),
            table@ == parse_state(ls.take(i as int)).0,
            inside == parse_state(ls.take(i as int)).1,
            name@ == parse_state(ls.take(i as int)).2,
            body@ == parse_state(ls.take(i as int)).3,
            forall|k: int| k < i ==> !malformed_at(ls, k),
        decreases ls.len() - i,
    {
        let line = &lines[i];
        assert(ls.take(i + 1).drop_last() =~= ls.take(i as int));
        assert(ls.take(i + 1).last() == ls[i as int]);
        if !inside {
            if matches_at(line, &open, 0) && !matches_at(line, &close, 0) {
                let closed = line.len() >= 2 && matches_at(line, &end, line.len() - 2);
                let stripped = remove_braces(line);
                if !closed || stripped.len() == 0 {
                    return Err(FragmentError::MalformedMarker { line: i + 1 });
                }
                inside = true;
                name = stripped;
                body = Vec::new();
            }
        } else if matches_at(line, &close, 0) {
            table.insert_chars(name, body);
            inside = false;
            name = Vec::new();
            body = Vec::new();
        } else {
            append_chars(&mut body, line);
            body.push('\n');
        }
        i = i + 1;
    }
    assert(ls.take(i as int) =~= ls);
    if inside {
        return Err(FragmentError::UnclosedBlock { name: string_of(&name) });
    }
    Ok(table)
}

} // verus!
