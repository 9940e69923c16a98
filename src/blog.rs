//! Pages and blog posts: naming, assembly from markup sources, and the HTML
//! snippets of a blog index.

use vstd::prelude::*;
use crate::convert::{convert, convert_document, ConvertWarning};
use crate::expand::{expand, expand_document, ExpandWarning, DEFAULT_MAX_DEPTH};
use crate::fragments::FragmentTable;
use crate::text::{
    chars_of, find, find_from, lemma_find_from, lines_of, matches_at, push_str,
    replace_all, replace_text, slice_chars, split_lines, starts_with, string_of,
};

verus! {

/// What `str::to_lowercase` makes of a text.
pub uninterp spec fn lower_of(s: Seq<char>) -> Seq<char>;

/// Relies on `str::to_lowercase`: the lowercase form of a text, which depends
/// on its characters alone.
#[verifier::external_body]
fn lowercase(s: &str) -> (r: String)
    ensures
        r@ == lower_of(s@),
{
    s.to_lowercase()
}

/// Relies on chrono's `Local.timestamp_opt(secs, 0)` and its `format`: the
/// time `secs` seconds after the Unix epoch in the machine's time zone, as
/// `dd.mm.yyyy - HH:MM`, or nothing when chrono cannot represent that time.
/// The result depends on the machine's time zone setting.
#[verifier::external_body]
fn local_date(secs: i64) -> (r: Option<String>) {
    match chrono::TimeZone::timestamp_opt(&chrono::Local, secs, 0) {
        chrono::MappedLocalTime::Single(t) => Some(t.format("%d.%m.%Y - %H:%M").to_string()),
        chrono::MappedLocalTime::Ambiguous(t, _) => Some(t.format("%d.%m.%Y - %H:%M").to_string()),
        chrono::MappedLocalTime::None => None,
    }
}

/// `s` with each space replaced by a dash.
pub open spec fn dash_spaces(s: Seq<char>) -> Seq<char>
    decreases s.len(),
{
    if s.len() == 0 {
        s
    } else {
        dash_spaces(s.drop_last()).push(if s.last() == ' ' { '-' } else { s.last() })
    }
}

/// The name of the HTML file of the page called `name`.
pub open spec fn file_name_of(name: Seq<char>) -> Seq<char> {
    lower_of(dash_spaces(name)) + ".html"@
}

/// The name of a page, from the name of its source file: what comes before
/// the first `.md`.
pub open spec fn title_of_source(file: Seq<char>) -> Seq<char> {
    match find_from(file, ".md"@, 0) {
        Some(i) => file.take(i),
        None => file,
    }
}

/// The file name of the page called `name`: spaces become dashes, letters
/// become lowercase, and `.html` is added.
pub fn page_file_name(name: &str) -> (r: String)
    ensures
        r@ == file_name_of(name@),
{
    let s = chars_of(name);
    let mut dashed: Vec<char> = Vec::new();
    let mut i: usize = 0;
    while i < s.len()
        invariant
            i <= s@.len(),
            dashed@ == dash_spaces(s@.take(i as int)),
        decreases s@.len() - i,
    {
        assert(s@.take(i + 1).drop_last() =~= s@.take(i as int));
        let c = s[i];
        dashed.push(if c == ' ' { '-' } else { c });
        i = i + 1;
    }
    assert(s@.take(i as int) =~= s@);
    let lower = lowercase(string_of(&dashed).as_str());
    let mut out = chars_of(lower.as_str());
    push_str(&mut out, ".html");
    string_of(&out)
}

/// The name of a page, from the name of its source file: what comes before
/// the first `.md`, or the whole name.
pub fn page_title(file_name: &str) -> (r: String)
    ensures
        r@ == title_of_source(file_name@),
{
    let s = chars_of(file_name);
    let ext = chars_of(".md");
    match find(&s, &ext, 0) {
        Some(i) => {
            proof {
                lemma_find_from(s@, ext@, 0);
            }
            let t = slice_chars(&s, 0, i);
            assert(t@ =~= s@.take(i as int));
            string_of(&t)
        },
        None => string_of(&s),
    }
}

/// A page of the site, built from a markup source.
#[derive(Clone, Debug)]
pub struct Page {
    /// The title, from the source file's name.
    pub name: String,
    /// The name of the HTML file written for it.
    pub file_name: String,
    /// The HTML of its body.
    pub content: String,
    /// Its source after component expansion.
    pub content_md: String,
    /// When its source was created, in seconds since the Unix epoch.
    pub created: i64,
    /// `created` as a readable date.
    pub date_hum: String,
}

/// A page and the warnings raised while building it.
pub struct PageBuild {
    pub page: Page,
    pub expand_warnings: Vec<ExpandWarning>,
    pub convert_warnings: Vec<ConvertWarning>,
}

/// Builds the page called `name` from its markup `source`: components are
/// expanded with the default depth, the result converted to HTML. `date_hum`
/// is stored as given.
pub fn assemble_page(
    name: &str,
    source: &str,
    created: i64,
    date_hum: String,
    fragments: &FragmentTable,
) -> (r: PageBuild)
    ensures
        r.page.name@ == name@,
        r.page.file_name@ == file_name_of(name@),
        r.page.content_md@ == expand_document(source@, fragments@, DEFAULT_MAX_DEPTH as nat).0,
        r.page.content@ == convert_document(r.page.content_md@).0,
        r.page.created == created,
        r.page.date_hum@ == date_hum@,
        crate::expand::warning_views(r.expand_warnings@) == expand_document(
            source@,
            fragments@,
            DEFAULT_MAX_DEPTH as nat,
        ).1,
        crate::convert::convert_warning_views(r.convert_warnings@) == convert_document(
            r.page.content_md@,
        ).1,
{
    let expanded = expand(source, fragments, DEFAULT_MAX_DEPTH);
    let converted = convert(expanded.text.as_str());
    let page = Page {
        name: string_of(&chars_of(name)),
        file_name: page_file_name(name),
        content: converted.html,
        content_md: expanded.text,
        created,
        date_hum,
    };
    PageBuild { page, expand_warnings: expanded.warnings, convert_warnings: converted.warnings }
}

/// Builds the page called `name` from its markup `source`, as
/// `assemble_page` does, with `created` shown as a local date. The date is
/// left empty when it cannot be represented.
pub fn build_page(name: &str, source: &str, created: i64, fragments: &FragmentTable) -> (r:
    PageBuild)
    ensures
        r.page.name@ == name@,
        r.page.file_name@ == file_name_of(name@),
        r.page.content_md@ == expand_document(source@, fragments@, DEFAULT_MAX_DEPTH as nat).0,
        r.page.content@ == convert_document(r.page.content_md@).0,
        r.page.created == created,
        crate::expand::warning_views(r.expand_warnings@) == expand_document(
            source@,
            fragments@,
            DEFAULT_MAX_DEPTH as nat,
        ).1,
        crate::convert::convert_warning_views(r.convert_warnings@) == convert_document(
            r.page.content_md@,
        ).1,
{
    let date_hum = match local_date(created) {
        Some(d) => d,
        None => String::new(),
    };
    assemble_page(name, source, created, date_hum, fragments)
}

/// The header and the body of the blog index's "current post" block, for
/// posts ordered newest first.
pub open spec fn current_post_spec(posts: Seq<Page>) -> (Seq<char>, Seq<char>) {
    if posts.len() == 0 {
        (seq![], "<h1>Current: None</h1>"@)
    } else {
        let p = posts[0];
        (
            "<h1>Current: <a href=\""@ + p.file_name@ + "\">"@ + p.name@ + "</a></h1>"@,
            p.content@ + "\n<div class=\"blog_footer\">"@ + p.date_hum@ + "</div>"@,
        )
    }
}

/// The header and body of the "current post" block: the first post, linked,
/// with its content and date, or a note that there is none.
pub fn current_post_fmt(posts: &Vec<Page>) -> (r: (String, String))
    ensures
        r.0@ == current_post_spec(posts@).0,
        r.1@ == current_post_spec(posts@).1,
{
    if posts.len() == 0 {
        return (String::new(), string_of(&chars_of("<h1>Current: None</h1>")));
    }
    let p = &posts[0];
    let mut header: Vec<char> = Vec::new();
    push_str(&mut header, "<h1>Current: <a href=\"");
    push_str(&mut header, p.file_name.as_str());
    push_str(&mut header, "\">");
    push_str(&mut header, p.name.as_str());
    push_str(&mut header, "</a></h1>");
    let mut content: Vec<char> = Vec::new();
    push_str(&mut content, p.content.as_str());
    push_str(&mut content, "\n<div class=\"blog_footer\">");
    push_str(&mut content, p.date_hum.as_str());
    push_str(&mut content, "</div>");
    (string_of(&header), string_of(&content))
}

/// One entry of the post list.
pub open spec fn list_entry(p: Page) -> Seq<char> {
    "<li><a href=\""@ + p.file_name@ + "\">"@ + p.name@ + "</a> - "@ + p.date_hum@ + "</li>\n"@
}

/// One row of the post table.
pub open spec fn table_row(p: Page) -> Seq<char> {
    "<tr><td><a href=\""@ + p.file_name@ + "\">"@ + p.name@ + "</a></td><td> "@ + p.date_hum@
        + "</td></tr>\n"@
}

/// The list entries of `posts`, in order.
pub open spec fn list_entries(posts: Seq<Page>) -> Seq<char>
    decreases posts.len(),
{
    if posts.len() == 0 {
        seq![]
    } else {
        list_entries(posts.drop_last()) + list_entry(posts.last())
    }
}

/// The table rows of `posts`, in order.
pub open spec fn table_rows(posts: Seq<Page>) -> Seq<char>
    decreases posts.len(),
{
    if posts.len() == 0 {
        seq![]
    } else {
        table_rows(posts.drop_last()) + table_row(posts.last())
    }
}

/// All posts as an HTML list: each linked, with its date.
pub fn all_posts_list(posts: &Vec<Page>) -> (r: String)
    ensures
        r@ == "<ul class=\"blog_post_list\">\n"@ + list_entries(posts@) + "</ul>\n"@,
{
    let mut out: Vec<char> = Vec::new();
    push_str(&mut out, "<ul class=\"blog_post_list\">\n");
    let ghost head = out@;
    let mut i: usize = 0;
    while i < posts.len()
        invariant
            i <= posts@.len(),
            out@ == head + list_entries(posts@.take(i as int)),
        decreases posts@.len() - i,
    {
        assert(posts@.take(i + 1).drop_last() =~= posts@.take(i as int));
        let p = &posts[i];
        push_str(&mut out, "<li><a href=\"");
        push_str(&mut out, p.file_name.as_str());
        push_str(&mut out, "\">");
        push_str(&mut out, p.name.as_str());
        push_str(&mut out, "</a> - ");
        push_str(&mut out, p.date_hum.as_str());
        push_str(&mut out, "</li>\n");
        i = i + 1;
        assert(out@ =~= head + list_entries(posts@.take(i as int)));
    }
    assert(posts@.take(i as int) =~= posts@);
    push_str(&mut out, "</ul>\n");
    string_of(&out)
}

/// All posts as an HTML table: one row each, linked, with its date.
pub fn all_posts_table(posts: &Vec<Page>) -> (r: String)
    ensures
        r@ == "<table class=\"blog_post_list\">\n"@ + table_rows(posts@) + "</table>\n"@,
{
    let mut out: Vec<char> = Vec::new();
    push_str(&mut out, "<table class=\"blog_post_list\">\n");
    let ghost head = out@;
    let mut i: usize = 0;
    while i < posts.len()
        invariant
            i <= posts@.len(),
            out@ == head + table_rows(posts@.take(i as int)),
        decreases posts@.len() - i,
    {
        assert(posts@.take(i + 1).drop_last() =~= posts@.take(i as int));
        let p = &posts[i];
        push_str(&mut out, "<tr><td><a href=\"");
        push_str(&mut out, p.file_name.as_str());
        push_str(&mut out, "\">");
        push_str(&mut out, p.name.as_str());
        push_str(&mut out, "</a></td><td> ");
        push_str(&mut out, p.date_hum.as_str());
        push_str(&mut out, "</td></tr>\n");
        i = i + 1;
        assert(out@ =~= head + table_rows(posts@.take(i as int)));
    }
    assert(posts@.take(i as int) =~= posts@);
    push_str(&mut out, "</table>\n");
    string_of(&out)
}

/// What chrono gives for `secs` seconds after the Unix epoch in UTC, formatted
/// as `%a, %d %b %Y %T UTC`, if it can represent that time.
pub uninterp spec fn feed_date_of(secs: int) -> Option<Seq<char>>;

/// Relies on chrono's `Utc.timestamp_opt(secs, 0)` and its `format` with
/// `%a, %d %b %Y %T UTC`: the result depends on `secs` alone, and there is
/// none when chrono cannot represent that time.
#[verifier::external_body]
fn utc_feed_date(secs: i64) -> (r: Option<String>)
    ensures
        match r {
            Some(d) => feed_date_of(secs as int) == Some(d@),
            None => feed_date_of(secs as int) is None,
        },
{
    match chrono::TimeZone::timestamp_opt(&chrono::Utc, secs, 0) {
        chrono::MappedLocalTime::Single(t) => Some(t.format("%a, %d %b %Y %T UTC").to_string()),
        chrono::MappedLocalTime::Ambiguous(t, _) => Some(
            t.format("%a, %d %b %Y %T UTC").to_string(),
        ),
        chrono::MappedLocalTime::None => None,
    }
}

/// The settings of a feed.
#[derive(Clone, Debug, PartialEq, Eq)]
pub struct FeedConfig {
    pub title: String,
    pub link: String,
    pub description: String,
    /// Put before a post's file name to make its link.
    pub post_link: String,
}

/// The settings of a feed, as the contracts see them.
pub struct FeedFields {
    pub title: Seq<char>,
    pub link: Seq<char>,
    pub description: Seq<char>,
    pub post_link: Seq<char>,
}

impl FeedConfig {
    pub open spec fn fields(&self) -> FeedFields {
        FeedFields {
            title: self.title@,
            link: self.link@,
            description: self.description@,
            post_link: self.post_link@,
        }
    }
}

/// A line of a feed configuration that the reader could not take.
#[derive(Clone, Debug, PartialEq, Eq)]
pub struct FeedConfigError {
    /// The line, counted from 1, that names a setting without a quoted value.
    pub line: usize,
}

/// A setting of a feed configuration.
#[derive(Clone, Copy, PartialEq, Eq, Structural, Debug)]
pub enum Setting {
    Title,
    Link,
    Description,
    PostLink,
}

/// Which setting a configuration line names, by its start.
pub open spec fn setting_of(line: Seq<char>) -> Option<Setting> {
    if starts_with(line, "title: "@) {
        Some(Setting::Title)
    } else if starts_with(line, "link: "@) {
        Some(Setting::Link)
    } else if starts_with(line, "description: "@) {
        Some(Setting::Description)
    } else if starts_with(line, "post-link: "@) {
        Some(Setting::PostLink)
    } else {
        None
    }
}

/// The value of a setting line: what follows its first `"`, up to the next
/// `"` or the end of the line.
pub open spec fn quoted_value(line: Seq<char>) -> Option<Seq<char>> {
    match find_from(line, seq!['"'], 0) {
        None => None,
        Some(i) => {
            let rest = line.skip(i + 1);
            match find_from(rest, seq!['"'], 0) {
                Some(j) => Some(rest.take(j)),
                None => Some(rest),
            }
        },
    }
}

/// The settings after reading the lines `ls`; a later line overrides an
/// earlier one, and lines that name no setting are ignored.
pub open spec fn config_scan(ls: Seq<Seq<char>>) -> FeedFields
    decreases ls.len(),
{
    if ls.len() == 0 {
        FeedFields { title: seq![], link: seq![], description: seq![], post_link: seq![] }
    } else {
        let f = config_scan(ls.drop_last());
        let line = ls.last();
        match (setting_of(line), quoted_value(line)) {
            (Some(Setting::Title), Some(v)) => FeedFields { title: v, ..f },
            (Some(Setting::Link), Some(v)) => FeedFields { link: v, ..f },
            (Some(Setting::Description), Some(v)) => FeedFields { description: v, ..f },
            (Some(Setting::PostLink), Some(v)) => FeedFields { post_link: v, ..f },
            _ => f,
        }
    }
}

/// Line `k` names a setting but holds no quoted value.
pub open spec fn bad_setting(ls: Seq<Seq<char>>, k: int) -> bool {
    0 <= k < ls.len() && setting_of(ls[k]) is Some && quoted_value(ls[k]) is None
}

/// The value of a setting line.
fn value_of(line: &Vec<char>, quote: &Vec<char>) -> (r: Option<Vec<char>>)
    requires
        quote@ == seq!['"'],
    ensures
        match r {
            Some(v) => quoted_value(line@) == Some(v@),
            None => quoted_value(line@) is None,
        },
{
    let i = match find(line, quote, 0) {
        None => return None,
        Some(i) => i,
    };
    proof {
        lemma_find_from(line@, quote@, 0);
    }
    let n = line.len();
    assert(i + 1 <= n);
    let rest = slice_chars(line, i + 1, n);
    assert(rest@ =~= line@.skip(i + 1));
    match find(&rest, quote, 0) {
        Some(j) => {
            proof {
                lemma_find_from(rest@, quote@, 0);
            }
            let v = slice_chars(&rest, 0, j);
            assert(v@ =~= rest@.take(j as int));
            Some(v)
        },
        None => Some(rest),
    }
}

/// Reads a feed configuration: lines `title: "..."`, `link: "..."`,
/// `description: "..."` and `post-link: "..."`; other lines are ignored. A
/// setting line without a `"` is an error.
pub fn parse_feed_config(cfg: &str) -> (r: Result<FeedConfig, FeedConfigError>)
    ensures
        ({
            let ls = lines_of(cfg@);
            match r {
                Ok(c) => (forall|k: int| !bad_setting(ls, k)) && c.fields() == config_scan(ls),
                Err(e) => {
                    &&& 1 <= e.line <= ls.len()
                    &&& bad_setting(ls, e.line - 1)
                    &&& forall|k: int| k < e.line - 1 ==> !bad_setting(ls, k)
                },
            }
        }),
{
    let chars = chars_of(cfg);
    let lines = split_lines(&chars);
    let ghost ls = lines_of(cfg@);
    let k_title = chars_of("title: ");
    let k_link = chars_of("link: ");
    let k_description = chars_of("description: ");
    let k_post_link = chars_of("post-link: ");
    let quote = vec!['"'];
    assert(quote@ =~= seq!['"']);
    let mut title: Vec<char> = Vec::new();
    let mut link: Vec<char> = Vec::new();
    let mut description: Vec<char> = Vec::new();
    let mut post_link: Vec<char> = Vec::new();
    let mut i: usize = 0;
    while i < lines.len()
        invariant
            ls == lines_of(cfg@),
            lines@.len() == ls.len(),
            forall|k: int| 0 <= k < lines@.len() ==> #[trigger] lines@[k]@ == ls[k],
            k_title@ == "title: "@,
            k_link@ == "link: "@,
            k_description@ == "description: "@,
            k_post_link@ == "post-link: "@,
            quote@ == seq!['"'],
            i <= ls.len(),
            title@ == config_scan(ls.take(i as int)).title,
            link@ == config_scan(ls.take(i as int)).link,
            description@ == config_scan(ls.take(i as int)).description,
            post_link@ == config_scan(ls.take(i as int)).post_link,
            forall|k: int| k < i ==> !bad_setting(ls, k),
        decreases ls.len() - i,
    {
        assert(ls.take(i + 1).drop_last() =~= ls.take(i as int));
        assert(ls.take(i + 1).last() == ls[i as int]);
        let line = &lines[i];
        let setting = if matches_at(line, &k_title, 0) {
            Some(Setting::Title)
        } else if matches_at(line, &k_link, 0) {
            Some(Setting::Link)
        } else if matches_at(line, &k_description, 0) {
            Some(Setting::Description)
        } else if matches_at(line, &k_post_link, 0) {
            Some(Setting::PostLink)
        } else {
            None
        };
        if let Some(which) = setting {
            match value_of(line, &quote) {
                Some(v) => match which {
                    Setting::Title => title = v,
                    Setting::Link => link = v,
                    Setting::Description => description = v,
                    Setting::PostLink => post_link = v,
                },
                None => {
                    return Err(FeedConfigError { line: i + 1 });
                },
            }
        }
        i = i + 1;
    }
    assert(ls.take(i as int) =~= ls);
    Ok(
        FeedConfig {
            title: string_of(&title),
            link: string_of(&link),
            description: string_of(&description),
            post_link: string_of(&post_link),
        },
    )
}

/// The most bytes of a description that a feed item shows before it is cut short.
pub const FEED_DESCRIPTION_BYTES: usize = 97;

/// The number of bytes `c` takes in UTF-8.
pub open spec fn utf8_len(c: char) -> nat {
    if (c as u32) < 0x80 {
        1
    } else if (c as u32) < 0x800 {
        2
    } else if (c as u32) < 0x10000 {
        3
    } else {
        4
    }
}

/// The number of bytes `s` takes in UTF-8.
pub open spec fn utf8_bytes(s: Seq<char>) -> nat
    decreases s.len(),
{
    if s.len() == 0 {
        0
    } else {
        utf8_bytes(s.drop_last()) + utf8_len(s.last())
    }
}

/// How many leading characters of `s` fit in `limit` bytes, counting on from
/// the first `i`, which are known to fit.
pub open spec fn fitting_chars(s: Seq<char>, limit: nat, i: int) -> int
    decreases s.len() - i,
{
    if 0 <= i < s.len() && utf8_bytes(s.take(i + 1)) <= limit {
        fitting_chars(s, limit, i + 1)
    } else {
        i
    }
}

/// The post's expanded source on one line: newlines become spaces.
pub open spec fn flat_source(md: Seq<char>) -> Seq<char> {
    md.map_values(|c: char| if c == '\n' { ' ' } else { c })
}

/// A feed item's description: the post's expanded source on one line. When
/// that takes at least `FEED_DESCRIPTION_BYTES` bytes, it is cut to the
/// longest prefix that fits in them and marked with `...`.
pub open spec fn feed_description(md: Seq<char>) -> Seq<char> {
    let flat = flat_source(md);
    if utf8_bytes(flat) >= FEED_DESCRIPTION_BYTES {
        flat.take(fitting_chars(flat, FEED_DESCRIPTION_BYTES as nat, 0)) + "..."@
    } else {
        flat
    }
}

/// A prefix takes no more bytes than the whole.
proof fn lemma_utf8_bytes_prefix(s: Seq<char>, j: int)
    requires
        0 <= j <= s.len(),
    ensures
        utf8_bytes(s.take(j)) <= utf8_bytes(s),
    decreases s.len(),
{
    if j == s.len() {
        assert(s.take(j) =~= s);
    } else {
        assert(s.drop_last().take(j) =~= s.take(j));
        lemma_utf8_bytes_prefix(s.drop_last(), j);
    }
}

/// The number of bytes `c` takes in UTF-8.
fn utf8_width(c: char) -> (r: usize)
    ensures
        r == utf8_len(c),
{
    let v = c as u32;
    if v < 0x80 {
        1
    } else if v < 0x800 {
        2
    } else if v < 0x10000 {
        3
    } else {
        4
    }
}

/// A character of a feed description: newlines become spaces.
fn flat_char(c: char) -> (r: char)
    ensures
        r == (if c == '\n' { ' ' } else { c }),
{
    if c == '\n' {
        ' '
    } else {
        c
    }
}

/// The feed item of post `p`, published on `date`, linked below `prefix`.
pub open spec fn feed_item(p: Page, date: Seq<char>, prefix: Seq<char>) -> Seq<char> {
    let link = prefix + p.file_name@;
    "    <item>\n      <title>"@ + p.name@ + "</title>\n      <pubDate>"@ + date
        + "</pubDate>\n      <link>"@ + link + "</link>\n      <guid>"@ + link
        + "</guid>\n      <description>"@ + feed_description(p.content_md@)
        + "</description>\n    </item>\n"@
}

/// The items of `posts`, last post first, each with the date of the same index.
pub open spec fn feed_items(posts: Seq<Page>, dates: Seq<Seq<char>>, prefix: Seq<char>) -> Seq<
    char,
>
    decreases posts.len(),
{
    if posts.len() == 0 {
        seq![]
    } else {
        feed_item(posts.last(), dates[posts.len() - 1], prefix) + feed_items(
            posts.drop_last(),
            dates,
            prefix,
        )
    }
}

/// The whole feed document.
pub open spec fn feed_spec(c: FeedFields, posts: Seq<Page>, dates: Seq<Seq<char>>) -> Seq<char> {
    "<rss version=\"2.0\">\n  <channel>\n    <title>"@ + c.title + "</title>\n    <link>"@
        + c.link + "</link>\n    <description>"@ + c.description + "</description>\n\n"@
        + feed_items(posts, dates, c.post_link) + "  </channel>\n</rss>"@
}

/// The publication date shown for each post: chrono's UTC date of its
/// creation, or nothing when chrono has none.
pub open spec fn feed_dates(posts: Seq<Page>) -> Seq<Seq<char>> {
    posts.map_values(
        |p: Page|
            match feed_date_of(p.created as int) {
                Some(d) => d,
                None => seq![],
            },
    )
}

/// Appends the description of a post with expanded source `md`.
fn push_description(out: &mut Vec<char>, md: &str)
    ensures
        final(out)@ == old(out)@ + feed_description(md@),
{
    let s = chars_of(md);
    let ghost flat = flat_source(md@);
    let ghost limit = FEED_DESCRIPTION_BYTES as nat;
    let mut used: usize = 0;
    let mut i: usize = 0;
    while i < s.len() && used + utf8_width(flat_char(s[i])) <= FEED_DESCRIPTION_BYTES
        invariant
            s@ == md@,
            flat == flat_source(md@),
            limit == FEED_DESCRIPTION_BYTES as nat,
            flat.len() == s@.len(),
            i <= s@.len(),
            used == utf8_bytes(flat.take(i as int)),
            used <= FEED_DESCRIPTION_BYTES,
            out@ == old(out)@ + flat.take(i as int),
            fitting_chars(flat, limit, 0) == fitting_chars(flat, limit, i as int),
        decreases s@.len() - i,
    {
        let c = flat_char(s[i]);
        assert(flat.take(i + 1).drop_last() =~= flat.take(i as int));
        assert(flat.take(i + 1).last() == c);
        out.push(c);
        used = used + utf8_width(c);
        i = i + 1;
        assert(out@ =~= old(out)@ + flat.take(i as int));
    }
    if i < s.len() {
        proof {
            assert(flat.take(i + 1).drop_last() =~= flat.take(i as int));
            lemma_utf8_bytes_prefix(flat, i + 1);
        }
        push_str(out, "...");
    } else {
        assert(flat.take(i as int) =~= flat);
        if used >= FEED_DESCRIPTION_BYTES {
            push_str(out, "...");
        }
    }
}

/// Appends the feed item of `p`.
fn push_item(out: &mut Vec<char>, p: &Page, date: &str, prefix: &str)
    ensures
        final(out)@ == old(out)@ + feed_item(*p, date@, prefix@),
{
    push_str(out, "    <item>\n      <title>");
    push_str(out, p.name.as_str());
    push_str(out, "</title>\n      <pubDate>");
    push_str(out, date);
    push_str(out, "</pubDate>\n      <link>");
    push_str(out, prefix);
    push_str(out, p.file_name.as_str());
    push_str(out, "</link>\n      <guid>");
    push_str(out, prefix);
    push_str(out, p.file_name.as_str());
    push_str(out, "</guid>\n      <description>");
    push_description(out, p.content_md.as_str());
    push_str(out, "</description>\n    </item>\n");
    assert(out@ =~= old(out)@ + feed_item(*p, date@, prefix@));
}

/// The feed of `posts`, with `dates[i]` as the publication date of `posts[i]`.
/// Items come last post first; each links to `post_link` followed by the
/// post's file name.
pub fn feed_from_dates(config: &FeedConfig, posts: &Vec<Page>, dates: &Vec<String>) -> (r: String)
    requires
        dates@.len() == posts@.len(),
    ensures
        r@ == feed_spec(config.fields(), posts@, dates@.map_values(|d: String| d@)),
{
    let ghost ds = dates@.map_values(|d: String| d@);
    let ghost prefix = config.post_link@;
    let mut out: Vec<char> = Vec::new();
    push_str(&mut out, "<rss version=\"2.0\">\n  <channel>\n    <title>");
    push_str(&mut out, config.title.as_str());
    push_str(&mut out, "</title>\n    <link>");
    push_str(&mut out, config.link.as_str());
    push_str(&mut out, "</link>\n    <description>");
    push_str(&mut out, config.description.as_str());
    push_str(&mut out, "</description>\n\n");
    let ghost head = out@;
    assert(posts@.take(posts@.len() as int) =~= posts@);
    let mut i: usize = posts.len();
    while i > 0
        invariant
            dates@.len() == posts@.len(),
            ds == dates@.map_values(|d: String| d@),
            prefix == config.post_link@,
            i <= posts@.len(),
            out@ + feed_items(posts@.take(i as int), ds, prefix) == head + feed_items(
                posts@,
                ds,
                prefix,
            ),
        decreases i,
    {
        let ghost before = out@;
        assert(posts@.take(i as int).drop_last() =~= posts@.take(i - 1));
        assert(posts@.take(i as int).last() == posts@[i - 1]);
        push_item(&mut out, &posts[i - 1], dates[i - 1].as_str(), config.post_link.as_str());
        assert(out@ + feed_items(posts@.take(i - 1), ds, prefix) =~= before + feed_items(
            posts@.take(i as int),
            ds,
            prefix,
        ));
        i = i - 1;
    }
    assert(posts@.take(0) =~= Seq::<Page>::empty());
    assert(posts@.take(posts@.len() as int) =~= posts@);
    assert(out@ =~= head + feed_items(posts@, ds, prefix));
    push_str(&mut out, "  </channel>\n</rss>");
    string_of(&out)
}

/// The feed of `posts`, each dated by chrono's UTC date of its creation (left
/// empty where chrono has none).
pub fn build_feed(config: &FeedConfig, posts: &Vec<Page>) -> (r: String)
    ensures
        r@ == feed_spec(config.fields(), posts@, feed_dates(posts@)),
{
    let mut dates: Vec<String> = Vec::new();
    let mut i: usize = 0;
    while i < posts.len()
        invariant
            i <= posts@.len(),
            dates@.len() == i,
            forall|k: int| 0 <= k < i ==> (#[trigger] dates@[k])@ == feed_dates(posts@)[k],
        decreases posts@.len() - i,
    {
        let d = match utc_feed_date(posts[i].created) {
            Some(d) => d,
            None => String::new(),
        };
        dates.push(d);
        assert(dates@[i as int]@ == feed_dates(posts@)[i as int]);
        i = i + 1;
    }
    let r = feed_from_dates(config, posts, &dates);
    assert(dates@.map_values(|d: String| d@) =~= feed_dates(posts@));
    r
}

/// The blog snippets that pages and posts may show.
#[derive(Clone, Debug)]
pub struct BlogParts {
    /// The table of all posts.
    pub all_posts: String,
    /// The header of the "current post" block.
    pub current_header: String,
    /// The body of the "current post" block.
    pub current_content: String,
}

/// `template` with the blog snippets filled in.
pub open spec fn with_blog_parts(template: Seq<char>, b: BlogParts) -> Seq<char> {
    let t = replace_all(template, "{{all_posts}}"@, b.all_posts@);
    let t = replace_all(t, "{{current_post_header}}"@, b.current_header@);
    replace_all(t, "{{current_post_content}}"@, b.current_content@)
}

/// The blog index: `template` with the "current post" block and then the
/// table of all posts filled in.
pub open spec fn index_html(template: Seq<char>, b: BlogParts) -> Seq<char> {
    let t = replace_all(template, "{{current_post_header}}"@, b.current_header@);
    let t = replace_all(t, "{{current_post_content}}"@, b.current_content@);
    replace_all(t, "{{all_posts}}"@, b.all_posts@)
}

/// The HTML file of page `p`: `template` with its title, content and date
/// filled in, then the blog snippets if there are any.
pub open spec fn page_html(template: Seq<char>, p: Page, blog: Option<BlogParts>) -> Seq<char> {
    let t = replace_all(template, "{{title}}"@, p.name@);
    let t = replace_all(t, "{{content}}"@, p.content@);
    let t = replace_all(t, "{{date}}"@, p.date_hum@);
    match blog {
        Some(b) => with_blog_parts(t, b),
        None => t,
    }
}

/// Fills `{{all_posts}}`, `{{current_post_header}}` and
/// `{{current_post_content}}` in `template`, in that order.
pub fn fill_blog_parts(template: &str, blog: &BlogParts) -> (r: String)
    ensures
        r@ == with_blog_parts(template@, *blog),
{
    let t = replace_text(template, "{{all_posts}}", blog.all_posts.as_str());
    let t = replace_text(t.as_str(), "{{current_post_header}}", blog.current_header.as_str());
    replace_text(t.as_str(), "{{current_post_content}}", blog.current_content.as_str())
}

/// The blog index: `{{current_post_header}}`, `{{current_post_content}}` and
/// `{{all_posts}}` of `template` filled in, in that order.
pub fn render_blog_index(template: &str, blog: &BlogParts) -> (r: String)
    ensures
        r@ == index_html(template@, *blog),
{
    let t = replace_text(template, "{{current_post_header}}", blog.current_header.as_str());
    let t = replace_text(t.as_str(), "{{current_post_content}}", blog.current_content.as_str());
    replace_text(t.as_str(), "{{all_posts}}", blog.all_posts.as_str())
}

/// The HTML file of `page`: `{{title}}`, `{{content}}` and `{{date}}` of
/// `template` filled in, in that order, then the blog snippets if given.
pub fn render_page(template: &str, page: &Page, blog: Option<&BlogParts>) -> (r: String)
    ensures
        r@ == page_html(
            template@,
            *page,
            match blog {
                Some(b) => Some(*b),
                None => None,
            },
        ),
{
    let t = replace_text(template, "{{title}}", page.name.as_str());
    let t = replace_text(t.as_str(), "{{content}}", page.content.as_str());
    let t = replace_text(t.as_str(), "{{date}}", page.date_hum.as_str());
    match blog {
        Some(b) => fill_blog_parts(t.as_str(), b),
        None => t,
    }
}

/// Posts ordered newest first.
pub open spec fn newest_first(posts: Seq<Page>) -> bool {
    forall|a: int, b: int| 0 <= a < b < posts.len() ==> posts[a].created >= posts[b].created
}

/// The posts of `posts` created at `t`, in their order.
pub open spec fn dated(posts: Seq<Page>, t: i64) -> Seq<Page>
    decreases posts.len(),
{
    if posts.len() == 0 {
        seq![]
    } else if posts.last().created == t {
        dated(posts.drop_last(), t).push(posts.last())
    } else {
        dated(posts.drop_last(), t)
    }
}

proof fn lemma_dated_concat(a: Seq<Page>, b: Seq<Page>, t: i64)
    ensures
        dated(a + b, t) == dated(a, t) + dated(b, t),
    decreases b.len(),
{
    if b.len() == 0 {
        assert(a + b =~= a);
        assert(dated(a, t) + dated(b, t) =~= dated(a, t));
    } else {
        assert((a + b).drop_last() =~= a + b.drop_last());
        assert((a + b).last() == b.last());
        lemma_dated_concat(a, b.drop_last(), t);
        if b.last().created == t {
            assert(dated(a, t) + dated(b.drop_last(), t).push(b.last()) =~= (dated(a, t) + dated(
                b.drop_last(),
                t,
            )).push(b.last()));
        }
    }
}

proof fn lemma_dated_none(s: Seq<Page>, t: i64)
    requires
        forall|j: int| 0 <= j < s.len() ==> (#[trigger] s[j]).created != t,
    ensures
        dated(s, t) == Seq::<Page>::empty(),
    decreases s.len(),
{
    if s.len() > 0 {
        assert(s.last() == s[s.len() - 1]);
        lemma_dated_none(s.drop_last(), t);
    }
}

/// Orders `posts` newest first; posts of the same date keep their order.
pub fn sort_newest_first(posts: Vec<Page>) -> (r: Vec<Page>)
    ensures
        newest_first(r@),
        r@.to_multiset() == posts@.to_multiset(),
        forall|t: i64| #[trigger] dated(r@, t) == dated(posts@, t),
{
    broadcast use vstd::seq_lib::group_to_multiset_ensures;

    let ghost orig = posts@;
    let mut rest = posts;
    let mut out: Vec<Page> = Vec::new();
    while rest.len() > 0
        invariant
            newest_first(out@),
            out@.to_multiset().add(rest@.to_multiset()) == orig.to_multiset(),
            forall|t: i64| #[trigger] dated(orig, t) == dated(rest@, t) + dated(out@, t),
        decreases rest@.len(),
    {
        let ghost before = rest@;
        let p = rest.pop().unwrap();
        proof {
            assert(before =~= rest@.push(p));
            vstd::seq_lib::to_multiset_build(rest@, p);
        }
        let mut k: usize = 0;
        while k < out.len() && out[k].created > p.created
            invariant
                k <= out@.len(),
                forall|j: int| 0 <= j < k ==> out@[j].created > p.created,
            decreases out@.len() - k,
        {
            k = k + 1;
        }
        let ghost prev = out@;
        out.insert(k, p);
        proof {
            vstd::seq_lib::to_multiset_insert(prev, k as int, p);
            assert(out@ == prev.insert(k as int, p));
            assert forall|a: int, b: int| 0 <= a < b < out@.len() implies out@[a].created
                >= out@[b].created by {
                if b < k {
                } else if b == k {
                } else if a < k {
                    assert(out@[b] == prev[b - 1]);
                } else if a == k {
                    assert(out@[b] == prev[b - 1]);
                    assert(prev[k as int].created <= p.created);
                    assert(prev[k as int].created >= prev[b - 1].created);
                } else {
                    assert(out@[a] == prev[a - 1]);
                    assert(out@[b] == prev[b - 1]);
                }
            }
            assert(out@.to_multiset() =~= prev.to_multiset().insert(p));
            assert(out@.to_multiset().add(rest@.to_multiset()) =~= orig.to_multiset());
            let front = prev.take(k as int);
            let back = prev.skip(k as int);
            assert(prev =~= front + back);
            assert(out@ =~= front + seq![p] + back);
            assert forall|t: i64| #[trigger] dated(orig, t) == dated(rest@, t) + dated(out@, t) by {
                lemma_dated_concat(front, back, t);
                lemma_dated_concat(front + seq![p], back, t);
                lemma_dated_concat(front, seq![p], t);
                assert(seq![p].drop_last() =~= Seq::<Page>::empty());
                assert(seq![p].last() == p);
                assert(dated(Seq::<Page>::empty(), t) == Seq::<Page>::empty());
                assert(dated(out@, t) == dated(front, t) + dated(seq![p], t) + dated(back, t));
                assert(dated(prev, t) == dated(front, t) + dated(back, t));
                if p.created == t {
                    assert(dated(seq![p], t) =~= seq![p]);
                    lemma_dated_none(front, t);
                    assert(dated(before, t) == dated(rest@, t).push(p));
                    assert(dated(rest@, t) + dated(out@, t) =~= dated(rest@, t).push(p) + dated(
                        prev,
                        t,
                    ));
                } else {
                    assert(dated(seq![p], t) =~= Seq::<Page>::empty());
                    assert(dated(before, t) == dated(rest@, t));
                    assert(dated(out@, t) =~= dated(prev, t));
                }
            }
        }
    }
    assert(rest@ =~= Seq::<Page>::empty());
    assert(rest@.to_multiset() =~= vstd::multiset::Multiset::<Page>::empty());
    assert(out@.to_multiset() =~= orig.to_multiset());
    assert forall|t: i64| #[trigger] dated(out@, t) == dated(orig, t) by {
        assert(dated(rest@, t) + dated(out@, t) =~= dated(out@, t));
    }
    out
}

} // verus!
