//! The markup converter: a line-oriented block scanner with an inline scanner
//! for links, turning a small markdown-like language into HTML.

use vstd::prelude::*;
use crate::text::{
    append_chars, chars_of, find, find_from, lemma_find_from, lemma_single_line, lines_of,
    matches_at, push_str, slice_chars, split_lines, starts_with, string_of,
};

verus! {

/// The state of the inline scanner between two characters.
#[derive(Clone, Copy, PartialEq, Eq, Structural, Debug)]
pub enum LinkMode {
    /// Outside any link: characters pass through.
    Text,
    /// After `[`: reading the link's text.
    Name,
    /// After `]`: a `(` must follow.
    AfterName,
    /// After `](`: reading the destination.
    Dest,
}

/// What the inline scanner holds after a prefix of a line.
pub struct LinkScan {
    pub mode: LinkMode,
    pub name: Seq<char>,
    pub dest: Seq<char>,
    pub out: Seq<char>,
    /// A link was started and given up on.
    pub broken: bool,
}

/// The markup a completed link becomes.
pub open spec fn anchor(name: Seq<char>, dest: Seq<char>) -> Seq<char> {
    "<a href=\""@ + dest + "\">"@ + name + "</a>"@
}

/// The characters of an unfinished link, given back as text.
pub open spec fn pending_text(mode: LinkMode, name: Seq<char>, dest: Seq<char>) -> Seq<char> {
    match mode {
        LinkMode::Text => seq![],
        LinkMode::Name => seq!['['] + name,
        LinkMode::AfterName => seq!['['] + name + seq![']'],
        LinkMode::Dest => seq!['['] + name + seq![']', '('] + dest,
    }
}

/// A `[` opens a link unless the character before it is `\` or `!`.
pub open spec fn opens_link(prev: Option<char>, c: char) -> bool {
    c == '[' && prev != Some('\\') && prev != Some('!')
}

/// Reads `c` outside a link, after `out` has been written.
pub open spec fn text_step(out: Seq<char>, broken: bool, prev: Option<char>, c: char) -> LinkScan {
    if opens_link(prev, c) {
        LinkScan { mode: LinkMode::Name, name: seq![], dest: seq![], out, broken }
    } else {
        LinkScan { mode: LinkMode::Text, name: seq![], dest: seq![], out: out.push(c), broken }
    }
}

/// One step of the inline scanner: `c` read after `prev`.
pub open spec fn link_step(st: LinkScan, prev: Option<char>, c: char) -> LinkScan {
    match st.mode {
        LinkMode::Text => text_step(st.out, st.broken, prev, c),
        LinkMode::Name => if c == ']' {
            LinkScan { mode: LinkMode::AfterName, ..st }
        } else {
            LinkScan { name: st.name.push(c), ..st }
        },
        LinkMode::AfterName => if c == '(' {
            LinkScan { mode: LinkMode::Dest, ..st }
        } else {
            text_step(
                st.out + pending_text(LinkMode::AfterName, st.name, st.dest),
                true,
                prev,
                c,
            )
        },
        LinkMode::Dest => if c == ')' {
            LinkScan {
                mode: LinkMode::Text,
                name: seq![],
                dest: seq![],
                out: st.out + anchor(st.name, st.dest),
                broken: st.broken,
            }
        } else {
            LinkScan { dest: st.dest.push(c), ..st }
        },
    }
}

/// The inline scanner's state after reading all of `s`.
pub open spec fn link_scan(s: Seq<char>) -> LinkScan
    decreases s.len(),
{
    if s.len() == 0 {
        LinkScan { mode: LinkMode::Text, name: seq![], dest: seq![], out: seq![], broken: false }
    } else {
        let prev = if s.len() >= 2 {
            Some(s[s.len() - 2])
        } else {
            None
        };
        link_step(link_scan(s.drop_last()), prev, s.last())
    }
}

/// `s` with each link `[text](dest)` replaced by an anchor, and whether a
/// started link was given up on (its characters are kept as text).
pub open spec fn render_links(s: Seq<char>) -> (Seq<char>, bool) {
    let st = link_scan(s);
    (st.out + pending_text(st.mode, st.name, st.dest), st.broken || st.mode != LinkMode::Text)
}

/// Replaces the links of `s`; see `render_links`.
fn links_chars(s: &Vec<char>) -> (r: (Vec<char>, bool))
    ensures
        r.0@ == render_links(s@).0,
        r.1 == render_links(s@).1,
{
    let mut mode = LinkMode::Text;
    let mut name: Vec<char> = Vec::new();
    let mut dest: Vec<char> = Vec::new();
    let mut out: Vec<char> = Vec::new();
    let mut broken = false;
    let mut i: usize = 0;
    while i < s.len()
        invariant
            i <= s@.len(),
            ({
                let st = link_scan(s@.take(i as int));
                st.mode == mode && st.name == name@ && st.dest == dest@ && st.out == out@
                    && st.broken == broken
            }),
        decreases s@.len() - i,
    {
        let ghost pre = s@.take(i as int);
        assert(s@.take(i + 1).drop_last() =~= pre);
        assert(s@.take(i + 1).last() == s@[i as int]);
        let c = s[i];
        let opens = c == '[' && (i == 0 || (s[i - 1] != '\\' && s[i - 1] != '!'));
        proof {
            let prev = if i + 1 >= 2 { Some(s@.take(i + 1)[i - 1]) } else { None::<char> };
            assert(opens == opens_link(prev, c));
        }
        match mode {
            LinkMode::Text => {
                if opens {
                    mode = LinkMode::Name;
                    name = Vec::new();
                    dest = Vec::new();
                } else {
                    out.push(c);
                }
            },
            LinkMode::Name => {
                if c == ']' {
                    mode = LinkMode::AfterName;
                } else {
                    name.push(c);
                }
            },
            LinkMode::AfterName => {
                if c == '(' {
                    mode = LinkMode::Dest;
                } else {
                    out.push('[');
                    append_chars(&mut out, &name);
                    out.push(']');
                    broken = true;
                    name = Vec::new();
                    dest = Vec::new();
                    if opens {
                        mode = LinkMode::Name;
                    } else {
                        mode = LinkMode::Text;
                        out.push(c);
                    }
                }
            },
            LinkMode::Dest => {
                if c == ')' {
                    push_str(&mut out, "<a href=\"");
                    append_chars(&mut out, &dest);
                    push_str(&mut out, "\">");
                    append_chars(&mut out, &name);
                    push_str(&mut out, "</a>");
                    mode = LinkMode::Text;
                    name = Vec::new();
                    dest = Vec::new();
                } else {
                    dest.push(c);
                }
            },
        }
        i = i + 1;
        proof {
            let st = link_scan(s@.take(i as int));
            assert(st.out =~= out@);
            assert(st.name =~= name@);
            assert(st.dest =~= dest@);
        }
    }
    assert(s@.take(i as int) =~= s@);
    let pending = mode != LinkMode::Text;
    match mode {
        LinkMode::Text => {},
        LinkMode::Name => {
            out.push('[');
            append_chars(&mut out, &name);
        },
        LinkMode::AfterName => {
            out.push('[');
            append_chars(&mut out, &name);
            out.push(']');
        },
        LinkMode::Dest => {
            out.push('[');
            append_chars(&mut out, &name);
            out.push(']');
            out.push('(');
            append_chars(&mut out, &dest);
        },
    }
    proof {
        let st = link_scan(s@);
        assert(out@ =~= st.out + pending_text(st.mode, st.name, st.dest));
    }
    (out, broken || pending)
}

/// Replaces each link `[text](dest)` of `text` by `<a href="dest">text</a>`. A
/// `[` right after `\` or `!` is plain text. A link that is not completed is
/// kept as the characters read; the flag says whether that happened.
pub fn render_link_spans(text: &str) -> (r: (String, bool))
    ensures
        r.0@ == render_links(text@).0,
        r.1 == render_links(text@).1,
{
    let s = chars_of(text);
    let (out, broken) = links_chars(&s);
    (string_of(&out), broken)
}

/// The block type of a line.
#[derive(Clone, Copy, PartialEq, Eq, Structural, Debug)]
pub enum Section {
    Heading1,
    Heading2,
    Paragraph,
    List,
    Quote,
    Image,
    /// An empty line: it ends the open section and emits nothing.
    Blank,
}

/// Sections whose consecutive lines share one opening and one closing tag.
pub open spec fn is_container(k: Section) -> bool {
    k == Section::Paragraph || k == Section::List || k == Section::Quote
}

/// The block type of `line`. The longer heading marker is tried first.
pub open spec fn classify(line: Seq<char>) -> Section {
    if starts_with(line, "## "@) {
        Section::Heading2
    } else if starts_with(line, "# "@) {
        Section::Heading1
    } else if starts_with(line, "- "@) {
        Section::List
    } else if starts_with(line, "> "@) {
        Section::Quote
    } else if starts_with(line, "!["@) {
        Section::Image
    } else if line.len() == 0 {
        Section::Blank
    } else {
        Section::Paragraph
    }
}

/// The marker that a line of the section starts with.
pub open spec fn section_marker(k: Section) -> Seq<char> {
    match k {
        Section::Heading1 => "# "@,
        Section::Heading2 => "## "@,
        Section::List => "- "@,
        Section::Quote => "> "@,
        Section::Image => "!["@,
        _ => seq![],
    }
}

/// The line without its section marker.
pub open spec fn section_text(k: Section, line: Seq<char>) -> Seq<char> {
    line.skip(section_marker(k).len() as int)
}

/// The text and destination of an image line `![text](dest)`, if it has both.
pub open spec fn image_parts(line: Seq<char>) -> Option<(Seq<char>, Seq<char>)> {
    let from = "!["@.len() as int;
    match find_from(line, "]("@, from) {
        None => None,
        Some(j) => match find_from(line, ")"@, j + "]("@.len()) {
            None => None,
            Some(e) => Some((line.subrange(from, j), line.subrange(j + "]("@.len(), e))),
        },
    }
}

/// The markup of one line of the given section, without indentation or newline.
pub open spec fn line_markup(k: Section, line: Seq<char>) -> Seq<char> {
    let text = section_text(k, line);
    match k {
        Section::Heading1 => "<h1>"@ + text + "</h1>"@,
        Section::Heading2 => "<h2>"@ + text + "</h2>"@,
        Section::Paragraph => render_links(text).0 + "<br>"@,
        Section::List => "<li>"@ + render_links(text).0 + "</li>"@,
        Section::Quote => render_links(text).0 + "<br>"@,
        Section::Image => match image_parts(line) {
            Some((alt, src)) => "<img src=\""@ + src + "\" alt=\""@ + alt + "\">"@,
            None => line,
        },
        Section::Blank => seq![],
    }
}

/// The line that opens a container section, or nothing for other sections.
pub open spec fn open_line(k: Section) -> Seq<char> {
    match k {
        Section::Paragraph => "<p>\n"@,
        Section::List => "<ul>\n"@,
        Section::Quote => "<p class=\"quote\">\n"@,
        _ => seq![],
    }
}

/// The line that closes a container section, or nothing for other sections.
pub open spec fn close_line(k: Section) -> Seq<char> {
    match k {
        Section::Paragraph => "</p>\n"@,
        Section::List => "</ul>\n"@,
        Section::Quote => "</p>\n"@,
        _ => seq![],
    }
}

/// What one line of the section emits: its markup on a line of its own,
/// indented one level inside a container. A blank line emits nothing.
pub open spec fn emitted(k: Section, line: Seq<char>) -> Seq<char> {
    if k == Section::Blank {
        seq![]
    } else if is_container(k) {
        "    "@ + line_markup(k, line) + "\n"@
    } else {
        line_markup(k, line) + "\n"@
    }
}

/// A warning raised while converting, as the contracts see it.
pub enum ConvertWarningView {
    MalformedLink(nat),
    MalformedImage(nat),
}

/// A defect in the markup. The line is still converted as well as it can be.
#[derive(Debug, Clone, PartialEq, Eq)]
pub enum ConvertWarning {
    /// The line, counted from 1, starts a link that it does not complete.
    MalformedLink { line: usize },
    /// The line, counted from 1, is an image line without `](` or without `)`.
    MalformedImage { line: usize },
}

impl View for ConvertWarning {
    type V = ConvertWarningView;

    open spec fn view(&self) -> ConvertWarningView {
        match self {
            ConvertWarning::MalformedLink { line } => ConvertWarningView::MalformedLink(
                *line as nat,
            ),
            ConvertWarning::MalformedImage { line } => ConvertWarningView::MalformedImage(
                *line as nat,
            ),
        }
    }
}

/// The views of a sequence of warnings.
pub open spec fn convert_warning_views(ws: Seq<ConvertWarning>) -> Seq<ConvertWarningView> {
    ws.map_values(|w: ConvertWarning| w@)
}

/// The warnings that line `n` (counted from 1) of the given section raises.
pub open spec fn line_warnings(k: Section, line: Seq<char>, n: nat) -> Seq<ConvertWarningView> {
    if is_container(k) && render_links(section_text(k, line)).1 {
        seq![ConvertWarningView::MalformedLink(n)]
    } else if k == Section::Image && image_parts(line) is None {
        seq![ConvertWarningView::MalformedImage(n)]
    } else {
        seq![]
    }
}

/// What the block scanner holds after some lines: the section of the last
/// line, the markup emitted and the warnings raised.
pub struct BlockScan {
    pub section: Section,
    pub out: Seq<char>,
    pub warnings: Seq<ConvertWarningView>,
}

/// The block scanner's state after the lines `ls`. When a line's section
/// differs from the previous one, the open container (if any) is closed and
/// the new one (if a container) opened before the line is emitted.
pub open spec fn block_scan(ls: Seq<Seq<char>>) -> BlockScan
    decreases ls.len(),
{
    if ls.len() == 0 {
        BlockScan { section: Section::Blank, out: seq![], warnings: seq![] }
    } else {
        block_step(block_scan(ls.drop_last()), ls.last(), ls.len())
    }
}

/// The block scanner reads `line`, line `n` of the document.
pub open spec fn block_step(st: BlockScan, line: Seq<char>, n: nat) -> BlockScan {
    let k = classify(line);
    let switch = if k != st.section {
        close_line(st.section) + open_line(k)
    } else {
        seq![]
    };
    BlockScan {
        section: k,
        out: st.out + switch + emitted(k, line),
        warnings: st.warnings + line_warnings(k, line, n),
    }
}

/// The HTML of a document and its warnings: the block scan of its lines,
/// with a container left open at the end closed.
pub open spec fn convert_document(doc: Seq<char>) -> (Seq<char>, Seq<ConvertWarningView>) {
    let st = block_scan(lines_of(doc));
    (st.out + close_line(st.section), st.warnings)
}

/// The markers the block scanner looks for, as character vectors.
struct Markers {
    h1: Vec<char>,
    h2: Vec<char>,
    item: Vec<char>,
    quote: Vec<char>,
    image: Vec<char>,
    split: Vec<char>,
    paren: Vec<char>,
}

impl Markers {
    spec fn wf(&self) -> bool {
        &&& self.h1@ == "# "@
        &&& self.h2@ == "## "@
        &&& self.item@ == "- "@
        &&& self.quote@ == "> "@
        &&& self.image@ == "!["@
        &&& self.split@ == "]("@
        &&& self.paren@ == ")"@
    }

    fn new() -> (r: Markers)
        ensures
            r.wf(),
    {
        Markers {
            h1: chars_of("# "),
            h2: chars_of("## "),
            item: chars_of("- "),
            quote: chars_of("> "),
            image: chars_of("!["),
            split: chars_of("]("),
            paren: chars_of(")"),
        }
    }

    /// The section marker of `k`.
    fn marker(&self, k: Section) -> (r: &Vec<char>)
        requires
            self.wf(),
            k != Section::Paragraph,
            k != Section::Blank,
        ensures
            r@ == section_marker(k),
    {
        match k {
            Section::Heading1 => &self.h1,
            Section::Heading2 => &self.h2,
            Section::List => &self.item,
            Section::Quote => &self.quote,
            _ => &self.image,
        }
    }
}

/// The block type of `line`.
fn classify_line(line: &Vec<char>, m: &Markers) -> (k: Section)
    requires
        m.wf(),
    ensures
        k == classify(line@),
{
    if matches_at(line, &m.h2, 0) {
        Section::Heading2
    } else if matches_at(line, &m.h1, 0) {
        Section::Heading1
    } else if matches_at(line, &m.item, 0) {
        Section::List
    } else if matches_at(line, &m.quote, 0) {
        Section::Quote
    } else if matches_at(line, &m.image, 0) {
        Section::Image
    } else if line.len() == 0 {
        Section::Blank
    } else {
        Section::Paragraph
    }
}

/// The line without the marker of its section.
fn text_of(k: Section, line: &Vec<char>, m: &Markers) -> (r: Vec<char>)
    requires
        m.wf(),
        k == classify(line@),
    ensures
        r@ == section_text(k, line@),
{
    if k == Section::Paragraph || k == Section::Blank {
        let r = slice_chars(line, 0, line.len());
        assert(r@ =~= section_text(k, line@));
        r
    } else {
        let marker = m.marker(k);
        let r = slice_chars(line, marker.len(), line.len());
        assert(r@ =~= section_text(k, line@));
        r
    }
}

/// The text and destination of an image line.
fn image_of(line: &Vec<char>, m: &Markers) -> (r: Option<(Vec<char>, Vec<char>)>)
    requires
        m.wf(),
    ensures
        match r {
            Some((alt, src)) => image_parts(line@) == Some((alt@, src@)),
            None => image_parts(line@) is None,
        },
{
    let from = m.image.len();
    let j = match find(line, &m.split, from) {
        None => return None,
        Some(j) => j,
    };
    proof {
        lemma_find_from(line@, "]("@, from as int);
    }
    let n = line.len();
    assert(j + m.split@.len() <= n);
    let start = j + m.split.len();
    let e = match find(line, &m.paren, start) {
        None => return None,
        Some(e) => e,
    };
    proof {
        lemma_find_from(line@, ")"@, start as int);
    }
    let alt = slice_chars(line, from, j);
    let src = slice_chars(line, start, e);
    Some((alt, src))
}

/// The markup of one line and whether the line raises a warning.
fn markup_of(k: Section, line: &Vec<char>, m: &Markers) -> (r: (Vec<char>, bool))
    requires
        m.wf(),
        k == classify(line@),
    ensures
        r.0@ == line_markup(k, line@),
        r.1 == (line_warnings(k, line@, 1).len() > 0),
{
    let text = text_of(k, line, m);
    let mut out: Vec<char> = Vec::new();
    let mut warn = false;
    match k {
        Section::Heading1 => {
            push_str(&mut out, "<h1>");
            append_chars(&mut out, &text);
            push_str(&mut out, "</h1>");
        },
        Section::Heading2 => {
            push_str(&mut out, "<h2>");
            append_chars(&mut out, &text);
            push_str(&mut out, "</h2>");
        },
        Section::Paragraph | Section::Quote => {
            let (links, broken) = links_chars(&text);
            append_chars(&mut out, &links);
            push_str(&mut out, "<br>");
            warn = broken;
        },
        Section::List => {
            let (links, broken) = links_chars(&text);
            push_str(&mut out, "<li>");
            append_chars(&mut out, &links);
            push_str(&mut out, "</li>");
            warn = broken;
        },
        Section::Image => {
            match image_of(line, m) {
                Some((alt, src)) => {
                    push_str(&mut out, "<img src=\"");
                    append_chars(&mut out, &src);
                    push_str(&mut out, "\" alt=\"");
                    append_chars(&mut out, &alt);
                    push_str(&mut out, "\">");
                },
                None => {
                    append_chars(&mut out, line);
                    warn = true;
                },
            }
        },
        Section::Blank => {},
    }
    assert(out@ =~= line_markup(k, line@));
    (out, warn)
}

/// Appends the line that opens (`opening`) or closes a container section.
fn push_boundary(out: &mut Vec<char>, k: Section, opening: bool)
    ensures
        final(out)@ == old(out)@ + if opening {
            open_line(k)
        } else {
            close_line(k)
        },
{
    match k {
        Section::Paragraph => {
            if opening {
                push_str(out, "<p>\n");
            } else {
                push_str(out, "</p>\n");
            }
        },
        Section::List => {
            if opening {
                push_str(out, "<ul>\n");
            } else {
                push_str(out, "</ul>\n");
            }
        },
        Section::Quote => {
            if opening {
                push_str(out, "<p class=\"quote\">\n");
            } else {
                push_str(out, "</p>\n");
            }
        },
        _ => {
            assert(old(out)@ + seq![] =~= old(out)@);
        },
    }
}

/// Reads line `n` of a document after a line of section `prev`: appends what
/// it emits to `out`, its warnings to `warnings`, and returns its section.
fn convert_line(
    out: &mut Vec<char>,
    warnings: &mut Vec<ConvertWarning>,
    prev: Section,
    line: &Vec<char>,
    n: usize,
    m: &Markers,
) -> (k: Section)
    requires
        m.wf(),
    ensures
        ({
            let st = block_step(
                BlockScan {
                    section: prev,
                    out: old(out)@,
                    warnings: convert_warning_views(old(warnings)@),
                },
                line@,
                n as nat,
            );
            &&& k == st.section
            &&& final(out)@ == st.out
            &&& convert_warning_views(final(warnings)@) == st.warnings
        }),
{
    let k = classify_line(line, m);
    if k != prev {
        push_boundary(out, prev, false);
        push_boundary(out, k, true);
    }
    let (markup, warn) = markup_of(k, line, m);
    if k != Section::Blank {
        if k == Section::Paragraph || k == Section::List || k == Section::Quote {
            push_str(out, "    ");
        }
        append_chars(out, &markup);
        push_str(out, "\n");
    }
    if warn {
        if k == Section::Image {
            warnings.push(ConvertWarning::MalformedImage { line: n });
        } else {
            warnings.push(ConvertWarning::MalformedLink { line: n });
        }
    }
    assert(convert_warning_views(warnings@) =~= convert_warning_views(old(warnings)@)
        + line_warnings(k, line@, n as nat));
    assert(out@ =~= old(out)@ + (if k != prev {
        close_line(prev) + open_line(k)
    } else {
        seq![]
    }) + emitted(k, line@));
    k
}

/// HTML and the warnings raised on the way.
pub struct Conversion {
    pub html: String,
    pub warnings: Vec<ConvertWarning>,
}

/// Converts a document, line by line, into HTML.
///
/// Each line is classified by its start: `## ` second-level heading, `# `
/// first-level heading, `- ` list item, `> ` quote, `![` image, an empty line
/// a section break, anything else a paragraph line. Consecutive paragraph,
/// list and quote lines share one wrapper (`<p>`, `<ul>`, `<p class="quote">`)
/// and are indented by four spaces inside it; headings and images stand alone.
/// Links `[text](dest)` in paragraph, list and quote lines become anchors.
pub fn convert(document: &str) -> (r: Conversion)
    ensures
        r.html@ == convert_document(document@).0,
        convert_warning_views(r.warnings@) == convert_document(document@).1,
{
    let m = Markers::new();
    let chars = chars_of(document);
    let lines = split_lines(&chars);
    let ghost ls = lines_of(document@);
    let mut out: Vec<char> = Vec::new();
    let mut warnings: Vec<ConvertWarning> = Vec::new();
    let mut prev = Section::Blank;
    let mut i: usize = 0;
    assert(convert_warning_views(warnings@) =~= seq![]);
    while i < lines.len()
        invariant
            m.wf(),
            ls == lines_of(document@),
            lines@.len() == ls.len(),
            forall|k: int| 0 <= k < lines@.len() ==> #[trigger] lines@[k]@ == ls[k],
            i <= ls.len(),
            block_scan(ls.take(i as int)).section == prev,
            block_scan(ls.take(i as int)).out == out@,
            block_scan(ls.take(i as int)).warnings == convert_warning_views(warnings@),
        decreases ls.len() - i,
    {
        assert(ls.take(i + 1).drop_last() =~= ls.take(i as int));
        assert(ls.take(i + 1).last() == ls[i as int]);
        prev = convert_line(&mut out, &mut warnings, prev, &lines[i], i + 1, &m);
        i = i + 1;
    }
    assert(ls.take(i as int) =~= ls);
    push_boundary(&mut out, prev, false);
    Conversion { html: string_of(&out), warnings }
}

/// No `[` of `s` opens a link: each stands right after a backslash or `!`.
pub open spec fn no_link_opening(s: Seq<char>) -> bool {
    forall|i: int| 0 <= i < s.len() && #[trigger] s[i] == '[' ==> i > 0 && (s[i - 1] == '\\'
        || s[i - 1] == '!')
}

/// Text in which no `[` opens a link passes through the inline scanner unchanged.
proof fn lemma_links_plain(s: Seq<char>)
    requires
        no_link_opening(s),
    ensures
        link_scan(s) == (LinkScan {
            mode: LinkMode::Text,
            name: seq![],
            dest: seq![],
            out: s,
            broken: false,
        }),
    decreases s.len(),
{
    if s.len() > 0 {
        let s0 = s.drop_last();
        assert(no_link_opening(s0)) by {
            assert forall|i: int| 0 <= i < s0.len() && #[trigger] s0[i] == '[' implies i > 0 && (
            s0[i - 1] == '\\' || s0[i - 1] == '!') by {
                assert(s[i] == '[');
            }
        }
        assert(s.last() == s[s.len() - 1]);
        lemma_links_plain(s0);
        assert(s0.push(s.last()) =~= s);
    } else {
        assert(s =~= seq![]);
    }
}

/// A line with no block marker, no link opening and no newline converts to itself,
/// wrapped only in paragraph markup: on its own it becomes a paragraph of one
/// line, and inside a paragraph it adds only its own indented line.
pub proof fn lemma_plain_line(line: Seq<char>)
    requires
        classify(line) == Section::Paragraph,
        no_link_opening(line),
        !line.contains('\n'),
    ensures
        emitted(Section::Paragraph, line) == "    "@ + line + "<br>"@ + "\n"@,
        line_warnings(Section::Paragraph, line, 1) == Seq::<ConvertWarningView>::empty(),
        convert_document(line) == (
            "<p>\n"@ + "    "@ + line + "<br>"@ + "\n"@ + "</p>\n"@,
            Seq::<ConvertWarningView>::empty(),
        ),
{
    lemma_links_plain(line);
    assert(section_text(Section::Paragraph, line) =~= line);
    lemma_single_line(line);
    let ls = lines_of(line);
    assert(ls.drop_last() =~= Seq::<Seq<char>>::empty());
    assert(block_scan(ls.drop_last()).out =~= seq![]);
    assert(seq![] + close_line(Section::Blank) + open_line(Section::Paragraph) =~= "<p>\n"@);
    assert(Seq::<ConvertWarningView>::empty() + Seq::<ConvertWarningView>::empty() =~= Seq::<
        ConvertWarningView,
    >::empty());
    assert(convert_document(line).0 =~= "<p>\n"@ + "    "@ + line + "<br>"@ + "\n"@
        + "</p>\n"@);
}

} // verus!
