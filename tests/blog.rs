use sitebuild::blog::{
    all_posts_list, all_posts_table, assemble_page, build_feed, build_page, current_post_fmt,
    feed_from_dates, fill_blog_parts, page_file_name, page_title, parse_feed_config,
    render_blog_index, render_page,
    sort_newest_first, BlogParts, FeedConfig, FeedConfigError, Page,
};
use sitebuild::convert::ConvertWarning;
use sitebuild::expand::ExpandWarning;
use sitebuild::fragments::FragmentTable;

fn post(name: &str, created: i64, md: &str) -> Page {
    Page {
        name: name.to_string(),
        file_name: page_file_name(name),
        content: format!("<p>{}</p>", name),
        content_md: md.to_string(),
        created,
        date_hum: format!("day {}", created),
    }
}

fn config() -> FeedConfig {
    FeedConfig {
        title: "Blog".to_string(),
        link: "https://b.test".to_string(),
        description: "Notes".to_string(),
        post_link: "https://b.test/blog/".to_string(),
    }
}

#[test]
fn file_name_is_dashed_lowercase_html() {
    assert_eq!(page_file_name("My First Post"), "my-first-post.html");
    assert_eq!(page_file_name("ÄBC x"), "äbc-x.html");
    assert_eq!(page_file_name(""), ".html");
}

#[test]
fn title_is_the_part_before_md() {
    assert_eq!(page_title("About Me.md"), "About Me");
    assert_eq!(page_title("a.md.md"), "a");
    assert_eq!(page_title("notes"), "notes");
}

#[test]
fn page_is_expanded_then_converted() {
    let mut t = FragmentTable::new();
    t.insert("f", "footer [x](y)");
    let b = assemble_page("Hello World", "# Hi\n{{component: f}}\n{{component: g}}", 5, "today".to_string(), &t);
    assert_eq!(b.page.name, "Hello World");
    assert_eq!(b.page.file_name, "hello-world.html");
    assert_eq!(b.page.content_md, "# Hi\nfooter [x](y)\n\n");
    assert_eq!(b.page.content, "<h1>Hi</h1>\n<p>\n    footer <a href=\"y\">x</a><br>\n</p>\n");
    assert_eq!(b.page.created, 5);
    assert_eq!(b.page.date_hum, "today");
    assert_eq!(b.expand_warnings, vec![ExpandWarning::MissingComponent { name: "g".to_string() }]);
    assert!(b.convert_warnings.is_empty());
}

#[test]
fn built_page_gets_a_local_date() {
    let t = FragmentTable::new();
    let b = build_page("Post", "text [a", 0, &t);
    assert_eq!(b.page.file_name, "post.html");
    assert_eq!(b.page.content_md, "text [a\n");
    assert_eq!(b.page.content, "<p>\n    text [a<br>\n</p>\n");
    assert_eq!(b.convert_warnings, vec![ConvertWarning::MalformedLink { line: 1 }]);
    assert!(!b.page.date_hum.is_empty());
}

#[test]
fn current_post_block() {
    assert_eq!(current_post_fmt(&vec![]), (String::new(), "<h1>Current: None</h1>".to_string()));
    let posts = vec![post("New One", 20, ""), post("Old", 10, "")];
    let (h, c) = current_post_fmt(&posts);
    assert_eq!(h, "<h1>Current: <a href=\"new-one.html\">New One</a></h1>");
    assert_eq!(c, "<p>New One</p>\n<div class=\"blog_footer\">day 20</div>");
}

#[test]
fn post_list_and_table() {
    let posts = vec![post("A", 2, ""), post("B", 1, "")];
    assert_eq!(
        all_posts_list(&posts),
        "<ul class=\"blog_post_list\">\n<li><a href=\"a.html\">A</a> - day 2</li>\n<li><a href=\"b.html\">B</a> - day 1</li>\n</ul>\n"
    );
    assert_eq!(
        all_posts_table(&posts),
        "<table class=\"blog_post_list\">\n<tr><td><a href=\"a.html\">A</a></td><td> day 2</td></tr>\n<tr><td><a href=\"b.html\">B</a></td><td> day 1</td></tr>\n</table>\n"
    );
    assert_eq!(all_posts_table(&vec![]), "<table class=\"blog_post_list\">\n</table>\n");
}

#[test]
fn feed_config_is_read() {
    let c = parse_feed_config(
        "# settings\ntitle: \"Blog\"\nlink: \"https://b.test\" trailing\ndescription: \"Notes\npost-link: \"https://b.test/blog/\"\n",
    )
    .unwrap();
    assert_eq!(c, config());
}

#[test]
fn feed_config_later_line_wins() {
    let c = parse_feed_config("title: \"a\"\ntitle: \"b\"").unwrap();
    assert_eq!(c.title, "b");
    assert_eq!(c.link, "");
}

#[test]
fn feed_config_without_quote_is_an_error() {
    assert_eq!(parse_feed_config("title: \"a\"\nlink: none"), Err(FeedConfigError { line: 2 }));
}

#[test]
fn feed_lists_posts_oldest_first_with_utc_dates() {
    let posts = vec![post("Two", 86_400, "second\npost"), post("One", 0, "first")];
    let feed = build_feed(&config(), &posts);
    assert_eq!(
        feed,
        "<rss version=\"2.0\">\n  <channel>\n    <title>Blog</title>\n    <link>https://b.test</link>\n    <description>Notes</description>\n\n    <item>\n      <title>One</title>\n      <pubDate>Thu, 01 Jan 1970 00:00:00 UTC</pubDate>\n      <link>https://b.test/blog/one.html</link>\n      <guid>https://b.test/blog/one.html</guid>\n      <description>first</description>\n    </item>\n    <item>\n      <title>Two</title>\n      <pubDate>Fri, 02 Jan 1970 00:00:00 UTC</pubDate>\n      <link>https://b.test/blog/two.html</link>\n      <guid>https://b.test/blog/two.html</guid>\n      <description>second post</description>\n    </item>\n  </channel>\n</rss>"
    );
}

#[test]
fn long_descriptions_are_cut() {
    let long = "x".repeat(100);
    let exact = "y".repeat(97);
    let short = "z".repeat(96);
    let posts = vec![post("L", 0, &long), post("E", 0, &exact), post("S", 0, &short)];
    let dates = vec!["d".to_string(), "d".to_string(), "d".to_string()];
    let feed = feed_from_dates(&config(), &posts, &dates);
    assert!(feed.contains(&format!("<description>{}...</description>", "x".repeat(97))));
    assert!(feed.contains(&format!("<description>{}...</description>", exact)));
    assert!(feed.contains(&format!("<description>{}</description>", short)));
}

#[test]
fn descriptions_are_cut_by_bytes() {
    let accent = format!("é{}", "a".repeat(96));
    let late = format!("{}é", "a".repeat(96));
    let wide = format!("{}é", "a".repeat(94));
    let posts = vec![post("A", 0, &accent), post("L", 0, &late), post("W", 0, &wide)];
    let dates = vec!["d".to_string(), "d".to_string(), "d".to_string()];
    let feed = feed_from_dates(&config(), &posts, &dates);
    assert!(feed.contains(&format!("<description>é{}...</description>", "a".repeat(95))));
    assert!(feed.contains(&format!("<description>{}...</description>", "a".repeat(96))));
    assert!(feed.contains(&format!("<description>{}é</description>", "a".repeat(94))));
}

#[test]
fn empty_feed() {
    let feed = feed_from_dates(&config(), &vec![], &vec![]);
    assert_eq!(
        feed,
        "<rss version=\"2.0\">\n  <channel>\n    <title>Blog</title>\n    <link>https://b.test</link>\n    <description>Notes</description>\n\n  </channel>\n</rss>"
    );
}

#[test]
fn page_template_is_filled() {
    let p = post("Home", 3, "");
    let t = "<title>{{title}}</title>{{content}}<i>{{date}}</i>{{all_posts}}{{title}}";
    assert_eq!(render_page(t, &p, None), "<title>Home</title><p>Home</p><i>day 3</i>{{all_posts}}Home");
    let blog = BlogParts {
        all_posts: "ALL".to_string(),
        current_header: "H".to_string(),
        current_content: "C".to_string(),
    };
    assert_eq!(render_page(t, &p, Some(&blog)), "<title>Home</title><p>Home</p><i>day 3</i>ALLHome");
    assert_eq!(
        fill_blog_parts("{{current_post_header}}|{{current_post_content}}|{{all_posts}}", &blog),
        "H|C|ALL"
    );
}

#[test]
fn blog_index_fills_the_current_post_first() {
    let blog = BlogParts {
        all_posts: "ALL".to_string(),
        current_header: "<h1>{{all_posts}}</h1>".to_string(),
        current_content: "C".to_string(),
    };
    assert_eq!(
        render_blog_index("{{current_post_header}}{{current_post_content}}{{all_posts}}", &blog),
        "<h1>ALL</h1>CALL"
    );
}

#[test]
fn posts_are_sorted_newest_first_and_ties_keep_order() {
    let posts = vec![post("a", 1, ""), post("b", 3, ""), post("c", 2, ""), post("d", 3, "")];
    let names: Vec<String> = sort_newest_first(posts).into_iter().map(|p| p.name).collect();
    assert_eq!(names, vec!["b", "d", "c", "a"]);
    assert!(sort_newest_first(vec![]).is_empty());
}
