//! Compiling one markdown document into a finished HTML page and the
//! entry record that feeds and the list page are built from.
use vstd::prelude::*;
use crate::Attribute;
use crate::BlogError;
use crate::date::read_date;
use crate::date::human_date;
use crate::date::human_text;
use crate::date::parsed_date;
use crate::date::DateProblem;
use crate::date::EntryDate;
use crate::date::DATE_PATTERN;
use crate::feeds::FeedTracker;
use crate::markdown::empty_meta;
use crate::markdown::extract;
use crate::markdown::markdown_kinds;
use crate::markdown::plan_of;
use crate::markdown::rendered_html;
use crate::markdown::process_markdown;
use crate::markdown::MetaView;
use crate::markdown::Metadata;
use crate::template::format_template;
use crate::template::pairs_view;
use crate::template::render;
use crate::text::push_str;

verus! {

/// Settings that shape every page and feed.
pub struct SiteConfig {
    /// Language of the pages, also the feeds' language.
    pub language: Option<String>,
    pub favicon: Option<String>,
    pub opengraph_locale: Option<String>,
    /// Site name for Open Graph and the feeds' title.
    pub opengraph_site_name: Option<String>,
    /// Base URL that entry links start with.
    pub blog_base_url: String,
}

/// Static fragments shared by every page; an empty one is left out.
pub struct Fragments {
    pub css: String,
    pub header: String,
    pub footer: String,
    pub blog_entry: String,
    pub blog_list: String,
}

impl Fragments {
    /// All fragments empty, for a site without a fragments directory.
    pub fn empty() -> (r: Fragments)
        ensures
            r.css@.len() == 0,
            r.header@.len() == 0,
            r.footer@.len() == 0,
            r.blog_entry@.len() == 0,
            r.blog_list@.len() == 0,
    {
        Fragments {
            css: String::new(),
            header: String::new(),
            footer: String::new(),
            blog_entry: String::new(),
            blog_list: String::new(),
        }
    }
}

/// One compiled document.
pub struct BlogEntry {
    /// Name of the entry's directory, used verbatim in links.
    pub url_name: String,
    pub title: String,
    pub description: String,
    pub date: EntryDate,
    /// Ids of the feeds the entry joins besides the main one.
    pub additional_feeds: Vec<u32>,
}

/// `BlogEntry` as plain values.
pub struct EntryView {
    pub url_name: Seq<char>,
    pub title: Seq<char>,
    pub description: Seq<char>,
    pub date: EntryDate,
    pub additional_feeds: Seq<u32>,
}

impl View for BlogEntry {
    type V = EntryView;

    open spec fn view(&self) -> EntryView {
        EntryView {
            url_name: self.url_name@,
            title: self.title@,
            description: self.description@,
            date: self.date,
            additional_feeds: self.additional_feeds@,
        }
    }
}

impl BlogEntry {
    /// The entry's date can be written in every form a page or feed needs.
    pub open spec fn wf(&self) -> bool {
        self.date.wf()
    }
}

/// The first required attribute that `m` lacks: title, description, date.
pub open spec fn missing_attribute(m: MetaView) -> Option<Attribute> {
    if m.title.len() == 0 {
        Some(Attribute::Title)
    } else if m.description.len() == 0 {
        Some(Attribute::Description)
    } else if m.date.len() == 0 {
        Some(Attribute::Date)
    } else {
        None
    }
}

/// The entry record of a document with metadata `meta` in directory
/// `url_name`. Fails with `MissingAttribute` for the first of title,
/// description and date that is empty, then with `InvalidDate` when the
/// date does not parse and `DateOutOfRange` when its year is not within 0
/// to 9999.
pub fn build_blog_entry(meta: &Metadata, url_name: &str) -> (r: Result<BlogEntry, BlogError>)
    ensures
        match missing_attribute(meta@) {
            Some(a) => r matches Err(BlogError::MissingAttribute { attribute }) && attribute == a,
            None => match parsed_date(meta@.date, DATE_PATTERN@) {
                Err(why) => r matches Err(BlogError::InvalidDate { reason }) && reason@ == why,
                Ok(d) => if d.wf() {
                    r matches Ok(e) && e.wf() && e@ == (EntryView {
                        url_name: url_name@,
                        title: meta@.title,
                        description: meta@.description,
                        date: d,
                        additional_feeds: meta@.additional_feeds,
                    })
                } else {
                    r matches Err(BlogError::DateOutOfRange)
                },
            },
        },
{
    if meta.title.as_str().is_empty() {
        return Err(BlogError::MissingAttribute { attribute: Attribute::Title });
    }
    if meta.description.as_str().is_empty() {
        return Err(BlogError::MissingAttribute { attribute: Attribute::Description });
    }
    if meta.date.as_str().is_empty() {
        return Err(BlogError::MissingAttribute { attribute: Attribute::Date });
    }
    match read_date(meta.date.as_str()) {
        Err(DateProblem::Unparsable { reason }) => Err(BlogError::InvalidDate { reason }),
        Err(DateProblem::OutOfRange) => Err(BlogError::DateOutOfRange),
        Ok(date) => Ok(
            BlogEntry {
                url_name: url_name.to_owned(),
                title: meta.title.clone(),
                description: meta.description.clone(),
                date,
                additional_feeds: meta.additional_feeds.clone(),
            },
        ),
    }
}

/// `s` when `b` holds, else nothing.
pub open spec fn when(b: bool, s: Seq<char>) -> Seq<char> {
    if b {
        s
    } else {
        Seq::empty()
    }
}

/// `pre`, the value and `post` when `o` holds a value, else nothing.
pub open spec fn wrap(o: Option<String>, pre: Seq<char>, post: Seq<char>) -> Seq<char> {
    match o {
        Some(v) => pre + v@ + post,
        None => Seq::empty(),
    }
}

/// The page head: doctype, optional language, charset, title, favicon,
/// description and Open Graph metadata, author, locale, site name, and the
/// style sheet, each only when present.
pub open spec fn head_text(c: &SiteConfig, css: Seq<char>, m: MetaView) -> Seq<char> {
    "<!DOCTYPE html>\n"@ + wrap(c.language, "<html lang=\""@, "\">\n"@)
        + "\n<head>\n<meta charset=\"UTF-8\">\n"@ + when(
        m.title.len() > 0,
        "<title>"@ + m.title + "</title>\n"@,
    ) + wrap(c.favicon, "<link rel=\"shortcut icon\" type=\"image/png\" href=\""@, "\" />\n"@)
        + when(
        m.description.len() > 0,
        "<meta name=\"description\" content=\""@ + m.description
            + "\" />\n<meta property=\"og:title\" content=\""@ + m.title
            + "\" />\n<meta property=\"og:description\" content=\""@ + m.description
            + "\" />\n"@,
    ) + wrap(c.favicon, "<meta name=\"og:image\" content=\""@, "\">\n"@) + when(
        m.author.len() > 0,
        "<meta name=\"author\" content=\""@ + m.author + "\" />\n"@,
    ) + wrap(c.opengraph_locale, "<meta property=\"og:locale\" content=\""@, "\" />\n"@)
        + wrap(c.opengraph_site_name, "<meta property=\"og:site_name\" content=\""@, "\" />\n"@)
        + when(css.len() > 0, "<style>\n"@ + css + "</style>\n"@) + "</head>\n\n"@
}

/// A whole page: head, the rendered header fragment if any, the body, and
/// the footer fragment if not empty.
pub open spec fn page_text(
    c: &SiteConfig,
    f: &Fragments,
    m: MetaView,
    header: Option<Seq<char>>,
    body: Seq<char>,
) -> Seq<char> {
    head_text(c, f.css@, m) + match header {
        Some(h) => h + "\n\n"@,
        None => Seq::empty(),
    } + body + when(f.footer@.len() > 0, "\n\n"@ + f.footer@)
}

/// The values the header fragment is rendered with for entry `e`.
pub open spec fn header_values(e: EntryView) -> Seq<(Seq<char>, Seq<char>)> {
    seq![
        ("TITLE"@, e.title),
        ("DESCRIPTION"@, e.description),
        ("DATE"@, human_text(e.date)),
    ]
}

/// Appends `pre`, `o`'s value and `post` when `o` holds a value.
fn push_wrapped(out: &mut String, o: &Option<String>, pre: &str, post: &str)
    ensures
        final(out)@ == old(out)@ + wrap(*o, pre@, post@),
{
    match o {
        Some(v) => {
            push_str(out, pre);
            push_str(out, v.as_str());
            push_str(out, post);
        },
        None => {
            assert(old(out)@ + Seq::<char>::empty() =~= old(out)@);
        },
    }
}

/// The head of a page with metadata `meta` and style sheet `css`.
fn head_of(config: &SiteConfig, css: &String, meta: &Metadata) -> (r: String)
    ensures
        r@ == head_text(config, css@, meta@),
{
    let mut out = String::new();
    push_str(&mut out, "<!DOCTYPE html>\n");
    push_wrapped(&mut out, &config.language, "<html lang=\"", "\">\n");
    push_str(&mut out, "\n<head>\n<meta charset=\"UTF-8\">\n");
    let ghost a = out@;
    if !meta.title.as_str().is_empty() {
        push_str(&mut out, "<title>");
        push_str(&mut out, meta.title.as_str());
        push_str(&mut out, "</title>\n");
    }
    assert(out@ =~= a + when(meta@.title.len() > 0, "<title>"@ + meta@.title + "</title>\n"@));
    push_wrapped(
        &mut out,
        &config.favicon,
        "<link rel=\"shortcut icon\" type=\"image/png\" href=\"",
        "\" />\n",
    );
    let ghost b = out@;
    if !meta.description.as_str().is_empty() {
        push_str(&mut out, "<meta name=\"description\" content=\"");
        push_str(&mut out, meta.description.as_str());
        push_str(&mut out, "\" />\n<meta property=\"og:title\" content=\"");
        push_str(&mut out, meta.title.as_str());
        push_str(&mut out, "\" />\n<meta property=\"og:description\" content=\"");
        push_str(&mut out, meta.description.as_str());
        push_str(&mut out, "\" />\n");
    }
    assert(out@ =~= b + when(
        meta@.description.len() > 0,
        "<meta name=\"description\" content=\""@ + meta@.description
            + "\" />\n<meta property=\"og:title\" content=\""@ + meta@.title
            + "\" />\n<meta property=\"og:description\" content=\""@ + meta@.description
            + "\" />\n"@,
    ));
    push_wrapped(&mut out, &config.favicon, "<meta name=\"og:image\" content=\"", "\">\n");
    let ghost c = out@;
    if !meta.author.as_str().is_empty() {
        push_str(&mut out, "<meta name=\"author\" content=\"");
        push_str(&mut out, meta.author.as_str());
        push_str(&mut out, "\" />\n");
    }
    assert(out@ =~= c + when(
        meta@.author.len() > 0,
        "<meta name=\"author\" content=\""@ + meta@.author + "\" />\n"@,
    ));
    push_wrapped(
        &mut out,
        &config.opengraph_locale,
        "<meta property=\"og:locale\" content=\"",
        "\" />\n",
    );
    push_wrapped(
        &mut out,
        &config.opengraph_site_name,
        "<meta property=\"og:site_name\" content=\"",
        "\" />\n",
    );
    let ghost d = out@;
    if !css.as_str().is_empty() {
        push_str(&mut out, "<style>\n");
        push_str(&mut out, css.as_str());
        push_str(&mut out, "</style>\n");
    }
    assert(out@ =~= d + when(css@.len() > 0, "<style>\n"@ + css@ + "</style>\n"@));
    push_str(&mut out, "</head>\n\n");
    out
}

/// The finished page for entry `entry` with metadata `meta` and rendered
/// markdown `body`. The header fragment, when not empty, is rendered with
/// the entry's `TITLE`, `DESCRIPTION` and human-readable `DATE`; a key it
/// lacks makes the page fail with `MissingTemplateKey`.
pub fn assemble_page(
    config: &SiteConfig,
    fragments: &Fragments,
    meta: &Metadata,
    entry: &BlogEntry,
    body: &str,
) -> (r: Result<String, BlogError>)
    requires
        entry.wf(),
    ensures
        fragments.header@.len() == 0 ==> (r matches Ok(p) && p@ == page_text(
            config,
            fragments,
            meta@,
            None,
            body@,
        )),
        fragments.header@.len() > 0 ==> match render(fragments.header@, header_values(entry@)) {
            Ok(h) => r matches Ok(p) && p@ == page_text(config, fragments, meta@, Some(h), body@),
            Err(key) => r matches Err(BlogError::MissingTemplateKey { key: k }) && k@ == key,
        },
{
    let mut out = head_of(config, &fragments.css, meta);
    let ghost head = out@;
    if !fragments.header.as_str().is_empty() {
        let date = human_date(&entry.date);
        let values = vec![
            ("TITLE", entry.title.as_str()),
            ("DESCRIPTION", entry.description.as_str()),
            ("DATE", date.as_str()),
        ];
        assert(pairs_view(values@) =~= header_values(entry@));
        match format_template(fragments.header.clone(), values.as_slice()) {
            Err(e) => {
                return Err(e);
            },
            Ok(h) => {
                push_str(&mut out, h.as_str());
                push_str(&mut out, "\n\n");
            },
        }
    }
    let ghost mid = out@;
    push_str(&mut out, body);
    if !fragments.footer.as_str().is_empty() {
        push_str(&mut out, "\n\n");
        push_str(&mut out, fragments.footer.as_str());
    }
    proof {
        if fragments.header@.len() == 0 {
            assert(mid == head);
            assert(out@ =~= page_text(config, fragments, meta@, None, body@));
        } else {
            let h = render(fragments.header@, header_values(entry@))->Ok_0;
            assert(out@ =~= page_text(config, fragments, meta@, Some(h), body@));
        }
    }
    Ok(out)
}

/// A compiled document: its page and its entry record.
pub struct CompiledPage {
    pub page: String,
    pub entry: BlogEntry,
}

/// Compiles markdown `input` from directory `url_name`: reads its
/// directives (registering feeds in `tracker`), builds the entry record and
/// assembles the page around the rendered markdown, whose image
/// descriptions are rewritten. Fails with
/// `TooManyFeeds` when feed ids could run out, and otherwise as
/// `build_blog_entry` and `assemble_page` do.
pub fn compile_document(
    input: &str,
    url_name: &str,
    config: &SiteConfig,
    fragments: &Fragments,
    tracker: &mut FeedTracker,
) -> (r: Result<CompiledPage, BlogError>)
    requires
        old(tracker).wf(),
    ensures
        final(tracker).wf(),
        ({
            let kinds = markdown_kinds(input@);
            let (m, names) = extract(kinds, (empty_meta(), old(tracker)@));
            if old(tracker)@.len() + kinds.len() >= u32::MAX {
                r matches Err(BlogError::TooManyFeeds) && final(tracker)@ == old(tracker)@
            } else {
                &&& final(tracker)@ == names
                &&& match missing_attribute(m) {
                    Some(a) => r matches Err(BlogError::MissingAttribute { attribute }) && attribute
                        == a,
                    None => match parsed_date(m.date, DATE_PATTERN@) {
                        Err(why) => r matches Err(BlogError::InvalidDate { reason }) && reason@
                            == why,
                        Ok(d) => if !d.wf() {
                            r matches Err(BlogError::DateOutOfRange)
                        } else {
                            let e = EntryView {
                                url_name: url_name@,
                                title: m.title,
                                description: m.description,
                                date: d,
                                additional_feeds: m.additional_feeds,
                            };
                            &&& r is Ok ==> r->Ok_0.entry@ == e && r->Ok_0.entry.wf()
                            &&& fragments.header@.len() == 0 ==> r is Ok
                            &&& fragments.header@.len() > 0 ==> match render(
                                fragments.header@,
                                header_values(e),
                            ) {
                                Ok(h) => r matches Ok(c) && c.page@ == page_text(
                                    config,
                                    fragments,
                                    m,
                                    Some(h),
                                    rendered_html(input@, plan_of(kinds)),
                                ),
                                Err(key) => r matches Err(BlogError::MissingTemplateKey { key: k })
                                    && k@ == key,
                            }
                            &&& fragments.header@.len() == 0 ==> (r matches Ok(c) && c.page@
                                == page_text(
                                config,
                                fragments,
                                m,
                                None,
                                rendered_html(input@, plan_of(kinds)),
                            ))
                        },
                    },
                }
            }
        }),
{
    let (body, meta) = match process_markdown(input, tracker) {
        None => {
            return Err(BlogError::TooManyFeeds);
        },
        Some(done) => done,
    };
    let entry = match build_blog_entry(&meta, url_name) {
        Err(e) => {
            return Err(e);
        },
        Ok(entry) => entry,
    };
    match assemble_page(config, fragments, &meta, &entry, body.as_str()) {
        Err(e) => Err(e),
        Ok(page) => Ok(CompiledPage { page, entry }),
    }
}

/// A page names its title: when a title was extracted, the page holds
/// `<title>`, the title and `</title>` right after the doctype, language
/// and charset lines.
pub proof fn law_page_names_title(
    c: &SiteConfig,
    f: &Fragments,
    m: MetaView,
    header: Option<Seq<char>>,
    body: Seq<char>,
)
    requires
        m.title.len() > 0,
    ensures
        ({
            let start = "<!DOCTYPE html>\n"@ + wrap(c.language, "<html lang=\""@, "\">\n"@)
                + "\n<head>\n<meta charset=\"UTF-8\">\n"@;
            let line = "<title>"@ + m.title + "</title>\n"@;
            let page = page_text(c, f, m, header, body);
            page.len() >= start.len() + line.len() && page.subrange(
                start.len() as int,
                (start.len() + line.len()) as int,
            ) == line
        }),
{
    let start = "<!DOCTYPE html>\n"@ + wrap(c.language, "<html lang=\""@, "\">\n"@)
        + "\n<head>\n<meta charset=\"UTF-8\">\n"@;
    let line = "<title>"@ + m.title + "</title>\n"@;
    let page = page_text(c, f, m, header, body);
    let head = head_text(c, f.css@, m);
    let after = head.subrange((start.len() + line.len()) as int, head.len() as int);
    assert(head =~= start + line + after);
    let tail = page.subrange(head.len() as int, page.len() as int);
    assert(page =~= head + tail);
    assert(page.subrange(start.len() as int, (start.len() + line.len()) as int) =~= line);
}

} // verus!
