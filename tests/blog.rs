use floc_blog::date::human_date;
use floc_blog::date::read_date;
use floc_blog::date::rfc2822_date;
use floc_blog::date::DateProblem;
use floc_blog::date::EntryDate;
use floc_blog::feeds::FeedTracker;
use floc_blog::layout::is_reserved_stem;
use floc_blog::layout::output_file_name;
use floc_blog::markdown::directive;
use floc_blog::markdown::process_markdown;
use floc_blog::page::assemble_page;
use floc_blog::page::build_blog_entry;
use floc_blog::page::compile_document;
use floc_blog::page::BlogEntry;
use floc_blog::page::Fragments;
use floc_blog::page::SiteConfig;
use floc_blog::site::assemble_site;
use floc_blog::site::build_site;
use floc_blog::site::format_blog_list;
use floc_blog::site::format_rss;
use floc_blog::site::sort_entries;
use floc_blog::template::format_template;
use floc_blog::Attribute;
use floc_blog::BlogError;

fn config() -> SiteConfig {
    SiteConfig {
        language: None,
        favicon: None,
        opengraph_locale: None,
        opengraph_site_name: None,
        blog_base_url: "https://example.org/blog".to_string(),
    }
}

fn date(year: i32, month: u32, day: u32, hour: u32) -> EntryDate {
    EntryDate { year, month, day, hour, minute: 0, second: 0, nanosecond: 0 }
}

fn entry(url: &str, title: &str, d: EntryDate, feeds: Vec<u32>) -> BlogEntry {
    BlogEntry {
        url_name: url.to_string(),
        title: title.to_string(),
        description: format!("about {}", title),
        date: d,
        additional_feeds: feeds,
    }
}

fn chars(s: &str) -> Vec<char> {
    s.chars().collect()
}

#[test]
fn template_replaces_known_keys() {
    let out = format_template("<h1>$TITLE$</h1><p>$DESCRIPTION$</p>".to_string(), &[("TITLE", "Hi"), ("DESCRIPTION", "there")]);
    assert_eq!(out, Ok("<h1>Hi</h1><p>there</p>".to_string()));
}

#[test]
fn template_keeps_unterminated_dollar() {
    let out = format_template("costs 5$ only".to_string(), &[]);
    assert_eq!(out, Ok("costs 5$ only".to_string()));
    let out = format_template("$A$ and $".to_string(), &[("A", "x")]);
    assert_eq!(out, Ok("x and $".to_string()));
}

#[test]
fn template_unknown_key_is_named() {
    let out = format_template("a $NOPE$ b".to_string(), &[("TITLE", "x")]);
    assert_eq!(out, Err(BlogError::MissingTemplateKey { key: "NOPE".to_string() }));
}

#[test]
fn template_does_not_rescan_values() {
    let out = format_template("[$A$][$B$]".to_string(), &[("A", "$B$"), ("B", "b")]);
    assert_eq!(out, Ok("[$B$][b]".to_string()));
}

#[test]
fn template_empty_and_empty_key() {
    assert_eq!(format_template(String::new(), &[]), Ok(String::new()));
    assert_eq!(format_template("x$$y".to_string(), &[("", "-")]), Ok("x-y".to_string()));
}

#[test]
fn feed_ids_first_seen_order() {
    let mut tracker = FeedTracker::new();
    assert_eq!(tracker.identify("tech"), 0);
    assert_eq!(tracker.identify("life"), 1);
    assert_eq!(tracker.identify("tech"), 0);
    assert_eq!(tracker.len(), 2);
    assert_eq!(tracker.ids(), vec![("tech".to_string(), 0), ("life".to_string(), 1)]);
}

#[test]
fn directive_parsing() {
    let (label, value) = directive("\u{3000}<!--author:\u{a0}Ann\t-->\u{2029}").unwrap();
    assert_eq!(label, chars("author"));
    assert_eq!(value, chars("Ann"));
    let (label, value) = directive("  <!--title:   Hello world  -->\n").unwrap();
    assert_eq!(label, chars("title"));
    assert_eq!(value, chars("Hello world"));
    let (label, value) = directive("<!--date: 01 Jan 2024 00:00:00 +0000-->").unwrap();
    assert_eq!(label, chars("date"));
    assert_eq!(value, chars("01 Jan 2024 00:00:00 +0000"));
    assert!(directive("<!-- no colon here -->").is_none());
    assert!(directive("<div>title: x</div>").is_none());
    assert!(directive("<!-->").is_none());
    let (label, _) = directive("<!-- title: spaced-->").unwrap();
    assert_eq!(label, chars(" title"));
}

#[test]
fn last_title_wins() {
    let mut tracker = FeedTracker::new();
    let (_, meta) = process_markdown("<!--title: A-->\n\ntext\n\n<!--title: B-->\n", &mut tracker).unwrap();
    assert_eq!(meta.title, "B");
}

#[test]
fn directives_fill_metadata_and_feeds() {
    let mut tracker = FeedTracker::new();
    tracker.identify("earlier");
    let input = "<!--title: T-->\n\n<!--description: D-->\n\n<!--author: Ann-->\n\n<!--date: 05 Jan 2024 10:00:00 +0000-->\n\n<!--additional-feed: tech-->\n\n<!--additional-feed: earlier-->\n\n<!--additional-feed: tech-->\n\n<!--colour: red-->\n";
    let (html, meta) = process_markdown(input, &mut tracker).unwrap();
    assert_eq!(meta.title, "T");
    assert_eq!(meta.description, "D");
    assert_eq!(meta.author, "Ann");
    assert_eq!(meta.date, "05 Jan 2024 10:00:00 +0000");
    assert_eq!(meta.additional_feeds, vec![1, 0, 1]);
    assert_eq!(tracker.len(), 2);
    assert!(html.contains("<!--title: T-->"));
}

#[test]
fn image_description_block_becomes_division() {
    let mut tracker = FeedTracker::new();
    let input = "```image_description\nA cat on a mat\n```\n\n```rust\nlet x = 1;\n```\n";
    let (html, _) = process_markdown(input, &mut tracker).unwrap();
    assert!(html.contains("<div class=\"ImageDescription\"><p>A cat on a mat\n</p></div>"));
    assert!(html.contains("<pre><code class=\"language-rust\">let x = 1;\n</code></pre>"));
    assert!(!html.contains("language-image_description"));
}

#[test]
fn markdown_renders_tables() {
    let mut tracker = FeedTracker::new();
    let (html, _) = process_markdown("| a | b |\n|---|---|\n| 1 | 2 |\n", &mut tracker).unwrap();
    assert!(html.contains("<table>"));
    assert!(html.contains("<td>1</td>"));
}

fn meta_from(input: &str) -> floc_blog::markdown::Metadata {
    let mut tracker = FeedTracker::new();
    process_markdown(input, &mut tracker).unwrap().1
}

#[test]
fn missing_title_fails() {
    let meta = meta_from("<!--description: D-->\n\n<!--date: 01 Jan 2024 00:00:00 +0000-->\n");
    assert!(matches!(build_blog_entry(&meta, "p"), Err(BlogError::MissingAttribute { attribute: Attribute::Title })));
    assert_eq!(Attribute::Title.name(), "title");
}

#[test]
fn missing_description_fails() {
    let meta = meta_from("<!--title: T-->\n\n<!--date: 01 Jan 2024 00:00:00 +0000-->\n");
    assert!(matches!(build_blog_entry(&meta, "p"), Err(BlogError::MissingAttribute { attribute: Attribute::Description })));
    assert_eq!(Attribute::Description.name(), "description");
}

#[test]
fn missing_date_fails() {
    let meta = meta_from("<!--title: T-->\n\n<!--description: D-->\n");
    assert!(matches!(build_blog_entry(&meta, "p"), Err(BlogError::MissingAttribute { attribute: Attribute::Date })));
    assert_eq!(Attribute::Date.name(), "date");
}

#[test]
fn unparsable_date_fails() {
    let meta = meta_from("<!--title: T-->\n\n<!--description: D-->\n\n<!--date: yesterday-->\n");
    match build_blog_entry(&meta, "p") {
        Err(BlogError::InvalidDate { reason }) => assert!(!reason.is_empty()),
        _ => panic!("expected an invalid date"),
    }
    assert!(matches!(read_date("2024-01-05"), Err(DateProblem::Unparsable { .. })));
}

#[test]
fn entry_from_metadata() {
    let meta = meta_from("<!--title: T-->\n\n<!--description: D-->\n\n<!--date: 05 Jan 2024 01:30:00 +0200-->\n\n<!--additional-feed: x-->\n");
    let e = build_blog_entry(&meta, "post").unwrap();
    assert_eq!(e.url_name, "post");
    assert_eq!(e.title, "T");
    assert_eq!(e.description, "D");
    assert_eq!(e.date, EntryDate { year: 2024, month: 1, day: 4, hour: 23, minute: 30, second: 0, nanosecond: 0 });
    assert_eq!(e.additional_feeds, vec![0]);
}

#[test]
fn dates_read_in_utc() {
    let d = read_date("31 Dec 2023 23:00:00 -0200").ok().unwrap();
    assert_eq!(d, EntryDate { year: 2024, month: 1, day: 1, hour: 1, minute: 0, second: 0, nanosecond: 0 });
}

#[test]
fn human_dates_use_ordinal_rule() {
    assert_eq!(human_date(&date(2024, 1, 1, 0)), "Monday the 1st of January 2024");
    assert_eq!(human_date(&date(2024, 1, 2, 0)), "Tuesday the 2nd of January 2024");
    assert_eq!(human_date(&date(2024, 1, 3, 0)), "Wednesday the 3rd of January 2024");
    assert_eq!(human_date(&date(2024, 1, 5, 0)), "Friday the  5th of January 2024");
    assert_eq!(human_date(&date(2024, 1, 21, 0)), "Sunday the 21th of January 2024");
}

#[test]
fn rfc2822_dates() {
    assert_eq!(rfc2822_date(&date(2024, 1, 1, 0)), "Mon, 1 Jan 2024 00:00:00 +0000");
    assert_eq!(rfc2822_date(&date(2024, 3, 15, 13)), "Fri, 15 Mar 2024 13:00:00 +0000");
}

#[test]
fn entries_sorted_newest_first_and_stable() {
    let es = vec![
        entry("a", "A", date(2023, 5, 1, 0), vec![]),
        entry("b", "B", date(2024, 1, 1, 0), vec![]),
        entry("c", "C", date(2023, 5, 1, 0), vec![]),
        entry("d", "D", date(2024, 1, 1, 12), vec![]),
    ];
    let sorted = sort_entries(es);
    let names: Vec<&str> = sorted.iter().map(|e| e.url_name.as_str()).collect();
    assert_eq!(names, vec!["d", "b", "a", "c"]);
    assert!(sort_entries(Vec::new()).is_empty());
}

#[test]
fn rss_main_feed_holds_all_entries() {
    let es = vec![
        entry("b", "B", date(2024, 1, 2, 0), vec![0]),
        entry("a", "A", date(2024, 1, 1, 0), vec![]),
    ];
    let rss = format_rss(&config(), None, &es, "NOW");
    let expected = "<?xml version=\"1.0\"?>\n<!--RSS generated NOW by floc_blog 0.0.1-->\n<rss version=\"2.0\">\n<channel>\n<language>en_US</language>\n<title></title>\n<generator>floc_blog 0.0.1</generator>\n\n<item>\n\t<title>B</title>\n\t<description>about B</description>\n\t<pubDate>Tue, 2 Jan 2024 00:00:00 +0000</pubDate>\n\t<link>https://example.org/blog/b</link>\n</item>\n<item>\n\t<title>A</title>\n\t<description>about A</description>\n\t<pubDate>Mon, 1 Jan 2024 00:00:00 +0000</pubDate>\n\t<link>https://example.org/blog/a</link>\n</item>\n\n</channel>\n</rss>\n";
    assert_eq!(rss, expected);
}

#[test]
fn rss_feed_filters_by_id() {
    let mut c = config();
    c.language = Some("de_DE".to_string());
    c.opengraph_site_name = Some("Site".to_string());
    let es = vec![
        entry("b", "B", date(2024, 1, 2, 0), vec![0, 1]),
        entry("a", "A", date(2024, 1, 1, 0), vec![1]),
    ];
    let rss = format_rss(&c, Some(0), &es, "NOW");
    assert!(rss.contains("<language>de_DE</language>\n<title>Site</title>"));
    assert_eq!(rss.matches("<item>").count(), 1);
    assert!(rss.contains("<title>B</title>"));
    assert!(!rss.contains("<title>A</title>"));
    assert_eq!(format_rss(&c, Some(1), &es, "NOW").matches("<item>").count(), 2);
    assert_eq!(format_rss(&c, Some(7), &es, "NOW").matches("<item>").count(), 0);
}

fn list_fragments() -> Fragments {
    let mut f = Fragments::empty();
    f.blog_entry = "<a href=\"$LINK$\">$TITLE$</a> $DATE$;".to_string();
    f.blog_list = "<ul>$ENTRIES$</ul>".to_string();
    f
}

#[test]
fn blog_list_renders_each_entry() {
    let es = vec![
        entry("b", "B", date(2024, 1, 2, 0), vec![]),
        entry("a", "A", date(2024, 1, 1, 0), vec![]),
    ];
    let page = format_blog_list(&config(), &es, &list_fragments()).unwrap();
    assert_eq!(page, "<ul><a href=\"https://example.org/blog/b\">B</a> Tuesday the 2nd of January 2024;<a href=\"https://example.org/blog/a\">A</a> Monday the 1st of January 2024;</ul>");
    assert_eq!(format_blog_list(&config(), &es, &Fragments::empty()), Ok(String::new()));
}

#[test]
fn blog_list_missing_key_fails() {
    let mut f = list_fragments();
    f.blog_entry = "$AUTHOR$".to_string();
    let es = vec![entry("a", "A", date(2024, 1, 1, 0), vec![])];
    assert_eq!(format_blog_list(&config(), &es, &f), Err(BlogError::MissingTemplateKey { key: "AUTHOR".to_string() }));
}

#[test]
fn page_head_and_fragments() {
    let mut c = config();
    c.language = Some("en".to_string());
    c.favicon = Some("icon.png".to_string());
    c.opengraph_locale = Some("en_GB".to_string());
    c.opengraph_site_name = Some("Site".to_string());
    let mut f = Fragments::empty();
    f.css = "p{}".to_string();
    f.header = "<h1>$TITLE$</h1><i>$DATE$</i>".to_string();
    f.footer = "<footer/>".to_string();
    let meta = meta_from("<!--title: T-->\n\n<!--description: D-->\n\n<!--author: Ann-->\n\n<!--date: 03 Feb 2024 00:00:00 +0000-->\n");
    let e = build_blog_entry(&meta, "p").unwrap();
    let page = assemble_page(&c, &f, &meta, &e, "<p>body</p>\n").unwrap();
    let expected = "<!DOCTYPE html>\n<html lang=\"en\">\n\n<head>\n<meta charset=\"UTF-8\">\n<title>T</title>\n<link rel=\"shortcut icon\" type=\"image/png\" href=\"icon.png\" />\n<meta name=\"description\" content=\"D\" />\n<meta property=\"og:title\" content=\"T\" />\n<meta property=\"og:description\" content=\"D\" />\n<meta name=\"og:image\" content=\"icon.png\">\n<meta name=\"author\" content=\"Ann\" />\n<meta property=\"og:locale\" content=\"en_GB\" />\n<meta property=\"og:site_name\" content=\"Site\" />\n<style>\np{}</style>\n</head>\n\n<h1>T</h1><i>Saturday the 3rd of February 2024</i>\n\n<p>body</p>\n\n\n<footer/>";
    assert_eq!(page, expected);
}

#[test]
fn page_header_missing_key_fails() {
    let mut f = Fragments::empty();
    f.header = "$WHO$".to_string();
    let mut tracker = FeedTracker::new();
    let input = "<!--title: T-->\n\n<!--description: D-->\n\n<!--date: 01 Jan 2024 00:00:00 +0000-->\n";
    let r = compile_document(input, "p", &config(), &f, &mut tracker);
    assert!(matches!(r, Err(BlogError::MissingTemplateKey { key }) if key == "WHO"));
}

#[test]
fn compile_document_missing_title_fails() {
    let mut tracker = FeedTracker::new();
    let r = compile_document("<!--description: D-->\n\n<!--date: 01 Jan 2024 00:00:00 +0000-->\n", "p", &config(), &Fragments::empty(), &mut tracker);
    assert!(matches!(r, Err(BlogError::MissingAttribute { attribute: Attribute::Title })));
}

#[test]
fn end_to_end_single_post() {
    let c = config();
    let mut f = Fragments::empty();
    f.blog_entry = "<article>$TITLE$: $DESCRIPTION$</article>".to_string();
    f.blog_list = "<main>$ENTRIES$</main>".to_string();
    let mut tracker = FeedTracker::new();
    let input = "<!--title: Hello-->\n\n<!--description: World-->\n\n<!--date: 01 Jan 2024 00:00:00 +0000-->\n\nSome *text*.\n";
    let compiled = compile_document(input, "post1", &c, &f, &mut tracker).unwrap();
    assert!(compiled.page.starts_with("<!DOCTYPE html>\n\n<head>\n<meta charset=\"UTF-8\">\n<title>Hello</title>\n"));
    assert!(compiled.page.contains("<p>Some <em>text</em>.</p>"));
    let site = build_site(&c, vec![compiled.entry], &tracker, &f, "NOW").unwrap();
    assert_eq!(site.feeds.len(), 1);
    assert_eq!(site.feeds[0].0, "feed");
    assert_eq!(site.feeds[0].1.matches("<item>").count(), 1);
    assert!(site.feeds[0].1.contains("<item>\n\t<title>Hello</title>"));
    assert_eq!(site.list_page, "<main><article>Hello: World</article></main>");
}

#[test]
fn site_has_one_feed_per_name() {
    let c = config();
    let mut tracker = FeedTracker::new();
    tracker.identify("tech");
    tracker.identify("life");
    let es = vec![
        entry("b", "B", date(2024, 1, 2, 0), vec![1]),
        entry("a", "A", date(2024, 1, 1, 0), vec![0, 1]),
    ];
    let site = assemble_site(&c, &es, &tracker, &list_fragments(), "NOW").unwrap();
    let names: Vec<&str> = site.feeds.iter().map(|f| f.0.as_str()).collect();
    assert_eq!(names, vec!["feed", "tech", "life"]);
    assert_eq!(site.feeds[0].1.matches("<item>").count(), 2);
    assert_eq!(site.feeds[1].1.matches("<item>").count(), 1);
    assert!(site.feeds[1].1.contains("<title>A</title>"));
    assert_eq!(site.feeds[2].1.matches("<item>").count(), 2);
}

#[test]
fn site_orders_entries_regardless_of_input_order() {
    let c = config();
    let tracker = FeedTracker::new();
    let es = vec![
        entry("old", "Old", date(2022, 6, 1, 0), vec![]),
        entry("new", "New", date(2024, 6, 1, 0), vec![]),
        entry("mid", "Mid", date(2023, 6, 1, 0), vec![]),
    ];
    let site = build_site(&c, es, &tracker, &list_fragments(), "NOW").unwrap();
    let rss = &site.feeds[0].1;
    let n = rss.find("<title>New</title>").unwrap();
    let m = rss.find("<title>Mid</title>").unwrap();
    let o = rss.find("<title>Old</title>").unwrap();
    assert!(n < m && m < o);
    let n = site.list_page.find(">New<").unwrap();
    let m = site.list_page.find(">Mid<").unwrap();
    let o = site.list_page.find(">Old<").unwrap();
    assert!(n < m && m < o);
}

#[test]
fn entry_files_are_renamed() {
    assert_eq!(output_file_name("content.md", "md"), Ok("index.html".to_string()));
    assert_eq!(output_file_name("cat.png", "png"), Ok("cat.png".to_string()));
    assert_eq!(output_file_name("notes", ""), Ok("notes".to_string()));
    assert_eq!(output_file_name("post.md", "md"), Err(BlogError::MisnamedMarkdown));
}

#[test]
fn index_stem_is_reserved() {
    assert!(is_reserved_stem("index"));
    assert!(!is_reserved_stem("post1"));
    assert!(!is_reserved_stem("Index"));
}

#[test]
fn unparsable_date_reason_is_chronos() {
    match read_date("05 Foo 2024 10:00:00 +0000") {
        Err(DateProblem::Unparsable { reason }) => assert_eq!(reason, "input contains invalid characters"),
        _ => panic!("expected an unparsable date"),
    }
}

#[test]
fn whitespace_definition_matches_std() {
    for c in ['\t', '\n', '\u{b}', '\u{c}', '\r', ' ', '\u{85}', '\u{a0}', '\u{1680}', '\u{2000}', '\u{200a}', '\u{2028}', '\u{2029}', '\u{202f}', '\u{205f}', '\u{3000}', 'a', '\u{200b}', '\u{feff}', '\u{1f}'] {
        assert_eq!(floc_blog::text::is_white_space(c), c.is_whitespace());
    }
}
