//! Site assembly: entries in date order, the RSS feeds and the list page.
use vstd::prelude::*;
use crate::BlogError;
use crate::date::human_date;
use crate::date::human_text;
use crate::date::is_not_later;
use crate::date::not_later;
use crate::date::rfc2822_date;
use crate::date::rfc2822_of;
use crate::feeds::FeedTracker;
use crate::page::BlogEntry;
use crate::page::EntryView;
use crate::page::Fragments;
use crate::page::SiteConfig;
use crate::template::format_template;
use crate::template::pairs_view;
use crate::template::render;
use crate::text::push_str;

verus! {

broadcast use vstd::seq_lib::group_to_multiset_ensures;

/// Version named in generated feeds.
pub const VERSION: &'static str = "0.0.1";

/// Name of the feed that holds every entry.
pub const MAIN_FEED: &'static str = "feed";

/// Plain views of `entries`, in order.
pub open spec fn views(entries: Seq<BlogEntry>) -> Seq<EntryView> {
    entries.map_values(|e: BlogEntry| e@)
}

/// Every entry's date can be written out.
pub open spec fn all_wf(entries: Seq<BlogEntry>) -> bool {
    forall|i: int| 0 <= i < entries.len() ==> (#[trigger] entries[i]).wf()
}

/// Most recent first: no entry is later than one before it.
pub open spec fn newest_first(entries: Seq<BlogEntry>) -> bool {
    forall|i: int, j: int|
        0 <= i < j < entries.len() ==> not_later(#[trigger] entries[j].date, #[trigger] entries[i].date)
}

proof fn lemma_order(a: crate::date::EntryDate, b: crate::date::EntryDate, c: crate::date::EntryDate)
    ensures
        not_later(a, b) || not_later(b, a),
        not_later(a, b) && not_later(b, c) ==> not_later(a, c),
        !not_later(a, b) && not_later(c, b) ==> !not_later(a, c),
{
}

/// `entries` sorted most recent first.
pub fn sort_entries(entries: Vec<BlogEntry>) -> (r: Vec<BlogEntry>)
    ensures
        r@.to_multiset() == entries@.to_multiset(),
        newest_first(r@),
        all_wf(entries@) ==> all_wf(r@),
{
    let ghost all = entries@;
    let mut out: Vec<BlogEntry> = Vec::new();
    for e in it: entries.into_iter()
        invariant
            it.seq() == all,
            out@.to_multiset() == all.subrange(0, it.index() as int).to_multiset(),
            newest_first(out@),
            all_wf(all) ==> all_wf(out@),
    {
        let ghost i = it.index() as int;
        let mut p: usize = 0;
        while p < out.len() && is_not_later(&e.date, &out[p].date)
            invariant
                p <= out@.len(),
                forall|k: int| 0 <= k < p ==> not_later(e.date, #[trigger] out@[k].date),
            decreases out@.len() - p,
        {
            p = p + 1;
        }
        let ghost before = out@;
        proof {
            assert forall|k: int| p <= k < before.len() implies !not_later(
                e.date,
                #[trigger] before[k].date,
            ) by {
                lemma_order(e.date, before[p as int].date, before[k].date);
            }
            assert(all.subrange(0, i + 1) =~= all.subrange(0, i).push(e));
        }
        out.insert(p, e);
        proof {
            assert forall|x: int, y: int| 0 <= x < y < out@.len() implies not_later(
                #[trigger] out@[y].date,
                #[trigger] out@[x].date,
            ) by {
                if y < p {
                } else if y == p {
                    assert(out@[x] == before[x]);
                } else if x < p {
                    assert(out@[y] == before[y - 1]);
                    assert(out@[x] == before[x]);
                    lemma_order(before[y - 1].date, e.date, before[x].date);
                } else if x == p {
                    assert(out@[y] == before[y - 1]);
                    lemma_order(before[y - 1].date, e.date, e.date);
                } else {
                    assert(out@[y] == before[y - 1]);
                    assert(out@[x] == before[x - 1]);
                }
            }
            if all_wf(all) {
                assert forall|k: int| 0 <= k < out@.len() implies (#[trigger] out@[k]).wf() by {
                    if k < p {
                        assert(out@[k] == before[k]);
                    } else if k > p {
                        assert(out@[k] == before[k - 1]);
                    } else {
                        assert(all[i] == e);
                    }
                }
            }
        }
    }
    proof {
        assert(all.subrange(0, all.len() as int) =~= all);
    }
    out
}

/// Entries in newest-first order whose dates all differ are in strictly
/// descending date order: each is later than every one after it.
pub proof fn law_distinct_dates_strictly_descending(entries: Seq<BlogEntry>)
    requires
        newest_first(entries),
        forall|i: int, j: int|
            0 <= i < j < entries.len() ==> #[trigger] entries[i].date != #[trigger] entries[j].date,
    ensures
        forall|i: int, j: int|
            0 <= i < j < entries.len() ==> !not_later(#[trigger] entries[i].date, #[trigger] entries[j].date),
{
    assert forall|i: int, j: int| 0 <= i < j < entries.len() implies !not_later(
        #[trigger] entries[i].date,
        #[trigger] entries[j].date,
    ) by {
        assert(not_later(entries[j].date, entries[i].date));
        assert(entries[i].date != entries[j].date);
    }
}

proof fn lemma_same_date(a: crate::date::EntryDate, b: crate::date::EntryDate)
    requires
        not_later(a, b),
        not_later(b, a),
    ensures
        a == b,
{
}

/// With pairwise distinct dates there is one newest-first order: two
/// newest-first sequences of the same entries are equal, whatever order
/// the entries came in.
pub proof fn law_newest_first_unique(a: Seq<BlogEntry>, b: Seq<BlogEntry>)
    requires
        a.to_multiset() == b.to_multiset(),
        newest_first(a),
        newest_first(b),
        forall|i: int, j: int|
            0 <= i < j < a.len() ==> #[trigger] a[i].date != #[trigger] a[j].date,
    ensures
        a == b,
    decreases a.len(),
{
    vstd::seq_lib::to_multiset_len(a);
    vstd::seq_lib::to_multiset_len(b);
    if a.len() == 0 {
        assert(b.len() == 0);
        assert(a =~= b);
    } else {
        assert(b.len() == a.len());
        assert(b.to_multiset().count(a[0]) > 0);
        assert(b.contains(a[0]));
        let j = choose|j: int| 0 <= j < b.len() && b[j] == a[0];
        assert(a.contains(b[0])) by {
            assert(a.to_multiset().count(b[0]) > 0);
        }
        let i = choose|i: int| 0 <= i < a.len() && a[i] == b[0];
        if i > 0 {
            assert(not_later(a[i].date, a[0].date));
        }
        if j > 0 {
            assert(not_later(b[j].date, b[0].date));
        }
        lemma_same_date(a[0].date, b[0].date);
        assert(i == 0);
        assert(a[0] == b[0]);
        vstd::seq_lib::to_multiset_remove(a, 0);
        vstd::seq_lib::to_multiset_remove(b, 0);
        assert(a.remove(0) =~= a.drop_first());
        assert(b.remove(0) =~= b.drop_first());
        let a1 = a.drop_first();
        let b1 = b.drop_first();
        assert forall|x: int, y: int| 0 <= x < y < a1.len() implies not_later(
            #[trigger] a1[y].date,
            #[trigger] a1[x].date,
        ) by {
            assert(a1[y] == a[y + 1] && a1[x] == a[x + 1]);
        }
        assert forall|x: int, y: int| 0 <= x < y < b1.len() implies not_later(
            #[trigger] b1[y].date,
            #[trigger] b1[x].date,
        ) by {
            assert(b1[y] == b[y + 1] && b1[x] == b[x + 1]);
        }
        assert forall|x: int, y: int| 0 <= x < y < a1.len() implies #[trigger] a1[x].date
            != #[trigger] a1[y].date by {
            assert(a1[y] == a[y + 1] && a1[x] == a[x + 1]);
        }
        law_newest_first_unique(a1, b1);
        assert forall|k: int| 0 <= k < a.len() implies a[k] == b[k] by {
            if k > 0 {
                assert(a[k] == a1[k - 1] && b[k] == b1[k - 1]);
            }
        }
        assert(a =~= b);
    }
}

/// Whether entry `e` belongs in the feed `feed_id`; every entry belongs in
/// the main feed, `None`.
pub open spec fn in_feed(e: EntryView, feed_id: Option<u32>) -> bool {
    match feed_id {
        None => true,
        Some(id) => e.additional_feeds.contains(id),
    }
}

/// The RSS item for `e`.
pub open spec fn item_text(c: &SiteConfig, e: EntryView) -> Seq<char> {
    "<item>\n\t<title>"@ + e.title + "</title>\n\t<description>"@ + e.description
        + "</description>\n\t<pubDate>"@ + rfc2822_of(e.date) + "</pubDate>\n\t<link>"@
        + c.blog_base_url@ + "/"@ + e.url_name + "</link>\n</item>\n"@
}

/// The items of `es`, in order.
pub open spec fn items_text(c: &SiteConfig, es: Seq<EntryView>) -> Seq<char>
    decreases es.len(),
{
    if es.len() == 0 {
        Seq::empty()
    } else {
        items_text(c, es.drop_last()) + item_text(c, es.last())
    }
}

/// The items of those of `es` that belong in feed `feed_id`, in order.
pub open spec fn feed_items(c: &SiteConfig, es: Seq<EntryView>, feed_id: Option<u32>) -> Seq<char>
    decreases es.len(),
{
    if es.len() == 0 {
        Seq::empty()
    } else {
        feed_items(c, es.drop_last(), feed_id) + if in_feed(es.last(), feed_id) {
            item_text(c, es.last())
        } else {
            Seq::empty()
        }
    }
}

/// The channel's language: the configured one, else `en_US`.
pub open spec fn language_of(c: &SiteConfig) -> Seq<char> {
    match c.language {
        Some(l) => l@,
        None => "en_US"@,
    }
}

/// The channel's title: the configured site name, else nothing.
pub open spec fn site_title(c: &SiteConfig) -> Seq<char> {
    match c.opengraph_site_name {
        Some(t) => t@,
        None => Seq::empty(),
    }
}

/// A whole RSS document generated at `generated` around `items`.
pub open spec fn rss_text(c: &SiteConfig, generated: Seq<char>, items: Seq<char>) -> Seq<char> {
    "<?xml version=\"1.0\"?>\n<!--RSS generated "@ + generated + " by floc_blog "@ + VERSION@
        + "-->\n<rss version=\"2.0\">\n<channel>\n<language>"@ + language_of(c)
        + "</language>\n<title>"@ + site_title(c) + "</title>\n<generator>floc_blog "@ + VERSION@
        + "</generator>\n\n"@ + items + "\n</channel>\n</rss>\n"@
}

/// The RSS document of feed `feed_id` (`None` for the main feed) over
/// `entries` in their order, stamped with the time `generated`.
pub fn format_rss(
    config: &SiteConfig,
    feed_id: Option<u32>,
    entries: &[BlogEntry],
    generated: &str,
) -> (r: String)
    requires
        all_wf(entries@),
    ensures
        r@ == rss_text(config, generated@, feed_items(config, views(entries@), feed_id)),
{
    let ghost es = views(entries@);
    let mut items = String::new();
    let mut i: usize = 0;
    while i < entries.len()
        invariant
            i <= entries@.len(),
            es == views(entries@),
            all_wf(entries@),
            items@ == feed_items(config, es.subrange(0, i as int), feed_id),
        decreases entries@.len() - i,
    {
        let entry = &entries[i];
        let ghost before = items@;
        let wanted = match feed_id {
            None => true,
            Some(id) => {
                let mut found = false;
                let mut k: usize = 0;
                while k < entry.additional_feeds.len()
                    invariant
                        k <= entry.additional_feeds@.len(),
                        found == exists|q: int|
                            0 <= q < k && entry.additional_feeds@[q] == id,
                    decreases entry.additional_feeds@.len() - k,
                {
                    if entry.additional_feeds[k] == id {
                        found = true;
                    }
                    k = k + 1;
                }
                found
            },
        };
        assert(wanted == in_feed(es[i as int], feed_id));
        if wanted {
            push_str(&mut items, "<item>\n\t<title>");
            push_str(&mut items, entry.title.as_str());
            push_str(&mut items, "</title>\n\t<description>");
            push_str(&mut items, entry.description.as_str());
            push_str(&mut items, "</description>\n\t<pubDate>");
            let date = rfc2822_date(&entry.date);
            push_str(&mut items, date.as_str());
            push_str(&mut items, "</pubDate>\n\t<link>");
            push_str(&mut items, config.blog_base_url.as_str());
            push_str(&mut items, "/");
            push_str(&mut items, entry.url_name.as_str());
            push_str(&mut items, "</link>\n</item>\n");
            assert(items@ =~= before + item_text(config, es[i as int]));
        } else {
            assert(items@ =~= before + Seq::<char>::empty());
        }
        i = i + 1;
        assert(es.subrange(0, i as int).drop_last() =~= es.subrange(0, i - 1));
    }
    assert(es.subrange(0, entries@.len() as int) =~= es);
    let mut out = String::new();
    push_str(&mut out, "<?xml version=\"1.0\"?>\n<!--RSS generated ");
    push_str(&mut out, generated);
    push_str(&mut out, " by floc_blog ");
    push_str(&mut out, VERSION);
    push_str(&mut out, "-->\n<rss version=\"2.0\">\n<channel>\n<language>");
    match &config.language {
        Some(l) => push_str(&mut out, l.as_str()),
        None => push_str(&mut out, "en_US"),
    }
    push_str(&mut out, "</language>\n<title>");
    match &config.opengraph_site_name {
        Some(t) => push_str(&mut out, t.as_str()),
        None => {},
    }
    push_str(&mut out, "</title>\n<generator>floc_blog ");
    push_str(&mut out, VERSION);
    push_str(&mut out, "</generator>\n\n");
    push_str(&mut out, items.as_str());
    push_str(&mut out, "\n</channel>\n</rss>\n");
    assert(out@ =~= rss_text(config, generated@, feed_items(config, es, feed_id)));
    out
}

proof fn lemma_feed_items_filter(c: &SiteConfig, es: Seq<EntryView>, id: u32)
    ensures
        feed_items(c, es, Some(id)) == items_text(
            c,
            es.filter(|e: EntryView| e.additional_feeds.contains(id)),
        ),
    decreases es.len(),
{
    let pred = |e: EntryView| e.additional_feeds.contains(id);
    if es.len() > 0 {
        lemma_feed_items_filter(c, es.drop_last(), id);
        assert(es =~= es.drop_last().push(es.last()));
        es.drop_last().lemma_filter_push(es.last(), pred);
        if pred(es.last()) {
            let f = es.drop_last().filter(pred).push(es.last());
            assert(f.drop_last() =~= es.drop_last().filter(pred));
        }
    } else {
        assert(es.filter(pred) =~= Seq::<EntryView>::empty());
    }
}

proof fn lemma_main_feed_items(c: &SiteConfig, es: Seq<EntryView>)
    ensures
        feed_items(c, es, None) == items_text(c, es),
    decreases es.len(),
{
    if es.len() > 0 {
        lemma_main_feed_items(c, es.drop_last());
    }
}

/// A feed's document holds the items of exactly those entries whose
/// additional feeds include the feed's id, in order; the main feed's holds
/// the items of all entries.
pub proof fn law_feed_membership(c: &SiteConfig, es: Seq<EntryView>, id: u32)
    ensures
        feed_items(c, es, Some(id)) == items_text(
            c,
            es.filter(|e: EntryView| e.additional_feeds.contains(id)),
        ),
        feed_items(c, es, None) == items_text(c, es),
{
    lemma_feed_items_filter(c, es, id);
    lemma_main_feed_items(c, es);
}

/// The values the `blog_entry` fragment is rendered with for `e`.
pub open spec fn entry_values(c: &SiteConfig, e: EntryView) -> Seq<(Seq<char>, Seq<char>)> {
    seq![
        ("TITLE"@, e.title),
        ("DESCRIPTION"@, e.description),
        ("DATE"@, human_text(e.date)),
        ("LINK"@, c.blog_base_url@ + "/"@ + e.url_name),
    ]
}

/// The `blog_entry` fragment `tpl` rendered for each of `es` and joined in
/// order, or the first key that is missing.
pub open spec fn list_entries(c: &SiteConfig, tpl: Seq<char>, es: Seq<EntryView>) -> Result<
    Seq<char>,
    Seq<char>,
>
    decreases es.len(),
{
    if es.len() == 0 {
        Ok(Seq::empty())
    } else {
        match list_entries(c, tpl, es.drop_last()) {
            Err(k) => Err(k),
            Ok(s) => match render(tpl, entry_values(c, es.last())) {
                Ok(x) => Ok(s + x),
                Err(k) => Err(k),
            },
        }
    }
}

/// The list page: the joined entries put in the `blog_list` fragment as
/// `ENTRIES`, or the first key that is missing.
pub open spec fn list_page(c: &SiteConfig, f: &Fragments, es: Seq<EntryView>) -> Result<
    Seq<char>,
    Seq<char>,
> {
    match list_entries(c, f.blog_entry@, es) {
        Err(k) => Err(k),
        Ok(s) => render(f.blog_list@, seq![("ENTRIES"@, s)]),
    }
}

proof fn lemma_list_error_stays(c: &SiteConfig, tpl: Seq<char>, es: Seq<EntryView>, n: int)
    requires
        0 <= n <= es.len(),
        list_entries(c, tpl, es.subrange(0, n)) is Err,
    ensures
        list_entries(c, tpl, es) == list_entries(c, tpl, es.subrange(0, n)),
    decreases es.len(),
{
    if n == es.len() {
        assert(es.subrange(0, n) =~= es);
    } else {
        assert(es.drop_last().subrange(0, n) =~= es.subrange(0, n));
        lemma_list_error_stays(c, tpl, es.drop_last(), n);
    }
}

/// The page listing `entries` in their order, each through the
/// `blog_entry` fragment, all inside the `blog_list` fragment.
pub fn format_blog_list(config: &SiteConfig, entries: &[BlogEntry], fragments: &Fragments) -> (r:
    Result<String, BlogError>)
    requires
        all_wf(entries@),
    ensures
        match list_page(config, fragments, views(entries@)) {
            Ok(p) => r matches Ok(s) && s@ == p,
            Err(k) => r matches Err(BlogError::MissingTemplateKey { key }) && key@ == k,
        },
{
    let ghost es = views(entries@);
    let mut joined = String::new();
    let mut i: usize = 0;
    while i < entries.len()
        invariant
            i <= entries@.len(),
            es == views(entries@),
            all_wf(entries@),
            list_entries(config, fragments.blog_entry@, es.subrange(0, i as int)) == Ok::<
                Seq<char>,
                Seq<char>,
            >(joined@),
        decreases entries@.len() - i,
    {
        let entry = &entries[i];
        let date = human_date(&entry.date);
        let mut link = String::new();
        push_str(&mut link, config.blog_base_url.as_str());
        push_str(&mut link, "/");
        push_str(&mut link, entry.url_name.as_str());
        let values = vec![
            ("TITLE", entry.title.as_str()),
            ("DESCRIPTION", entry.description.as_str()),
            ("DATE", date.as_str()),
            ("LINK", link.as_str()),
        ];
        assert(pairs_view(values@) =~= entry_values(config, es[i as int]));
        assert(es.subrange(0, i + 1).drop_last() =~= es.subrange(0, i as int));
        match format_template(fragments.blog_entry.clone(), values.as_slice()) {
            Err(e) => {
                proof {
                    lemma_list_error_stays(config, fragments.blog_entry@, es, i + 1);
                }
                return Err(e);
            },
            Ok(x) => {
                push_str(&mut joined, x.as_str());
            },
        }
        i = i + 1;
    }
    assert(es.subrange(0, entries@.len() as int) =~= es);
    let values = vec![("ENTRIES", joined.as_str())];
    assert(pairs_view(values@) =~= seq![("ENTRIES"@, joined@)]);
    format_template(fragments.blog_list.clone(), values.as_slice())
}

/// Every output document of a site besides the entry pages.
pub struct Site {
    /// Each feed's name with its RSS document; the main feed comes first.
    pub feeds: Vec<(String, String)>,
    /// The page listing every entry.
    pub list_page: String,
}

/// What assembling `es` in this order gives, with feed names `names` and
/// generation time `generated`: the list page, the main feed over all
/// entries, and for each registered feed, in id order, its RSS document.
pub open spec fn site_result(
    c: &SiteConfig,
    f: &Fragments,
    es: Seq<EntryView>,
    names: Seq<Seq<char>>,
    generated: Seq<char>,
    r: Result<Site, BlogError>,
) -> bool {
    match list_page(c, f, es) {
        Err(k) => r matches Err(BlogError::MissingTemplateKey { key }) && key@ == k,
        Ok(p) => r matches Ok(site) && {
            &&& site.list_page@ == p
            &&& site.feeds@.len() == names.len() + 1
            &&& site.feeds@[0].0@ == MAIN_FEED@
            &&& site.feeds@[0].1@ == rss_text(c, generated, feed_items(c, es, None))
            &&& forall|i: int|
                0 <= i < names.len() ==> (#[trigger] site.feeds@[i + 1]).0@ == names[i]
                    && site.feeds@[i + 1].1@ == rss_text(
                    c,
                    generated,
                    feed_items(c, es, Some(i as u32)),
                )
        },
    }
}

/// Assembles the feeds and the list page over `entries` in their order.
pub fn assemble_site(
    config: &SiteConfig,
    entries: &[BlogEntry],
    tracker: &FeedTracker,
    fragments: &Fragments,
    generated: &str,
) -> (r: Result<Site, BlogError>)
    requires
        all_wf(entries@),
        tracker@.len() <= u32::MAX,
    ensures
        site_result(config, fragments, views(entries@), tracker@, generated@, r),
{
    let list_page = match format_blog_list(config, entries, fragments) {
        Err(e) => {
            return Err(e);
        },
        Ok(p) => p,
    };
    let mut feeds: Vec<(String, String)> = Vec::new();
    feeds.push((MAIN_FEED.to_owned(), format_rss(config, None, entries, generated)));
    let ids = tracker.ids();
    let mut k: usize = 0;
    while k < ids.len()
        invariant
            k <= ids@.len() == tracker@.len() <= u32::MAX,
            all_wf(entries@),
            forall|i: int|
                0 <= i < ids@.len() ==> (#[trigger] ids@[i]).0@ == tracker@[i] && ids@[i].1 == i,
            feeds@.len() == k + 1,
            feeds@[0].0@ == MAIN_FEED@,
            feeds@[0].1@ == rss_text(config, generated@, feed_items(config, views(entries@), None)),
            forall|i: int|
                0 <= i < k ==> (#[trigger] feeds@[i + 1]).0@ == tracker@[i] && feeds@[i + 1].1@
                    == rss_text(config, generated@, feed_items(config, views(entries@), Some(i as u32))),
        decreases ids@.len() - k,
    {
        let id = ids[k].1;
        let rss = format_rss(config, Some(id), entries, generated);
        feeds.push((ids[k].0.clone(), rss));
        k = k + 1;
    }
    Ok(Site { feeds, list_page })
}

/// Sorts `entries` most recent first and assembles the site, stamping the
/// feeds with the time `generated`.
pub fn build_site(
    config: &SiteConfig,
    entries: Vec<BlogEntry>,
    tracker: &FeedTracker,
    fragments: &Fragments,
    generated: &str,
) -> (r: Result<Site, BlogError>)
    requires
        all_wf(entries@),
        tracker@.len() <= u32::MAX,
    ensures
        exists|sorted: Seq<BlogEntry>|
            {
                &&& sorted.to_multiset() == entries@.to_multiset()
                &&& newest_first(sorted)
                &&& site_result(config, fragments, views(sorted), tracker@, generated@, r)
            },
{
    let sorted = sort_entries(entries);
    let r = assemble_site(config, sorted.as_slice(), tracker, fragments, generated);
    assert(site_result(config, fragments, views(sorted@), tracker@, generated@, r));
    r
}

/// Most recent first, over plain views.
pub open spec fn dates_descending(es: Seq<EntryView>) -> bool {
    forall|i: int, j: int|
        0 <= i < j < es.len() ==> not_later(#[trigger] es[j].date, #[trigger] es[i].date)
}

/// No entry of `es` is earlier than `d`.
pub open spec fn none_earlier(d: crate::date::EntryDate, es: Seq<EntryView>) -> bool {
    forall|k: int| 0 <= k < es.len() ==> not_later(d, #[trigger] es[k].date)
}

proof fn lemma_filter_none_earlier(
    d: crate::date::EntryDate,
    es: Seq<EntryView>,
    p: spec_fn(EntryView) -> bool,
)
    requires
        none_earlier(d, es),
    ensures
        none_earlier(d, es.filter(p)),
    decreases es.len(),
{
    if es.len() == 0 {
        assert(es.filter(p) =~= es) by {
            reveal(Seq::filter);
        }
    } else {
        let s = es.drop_last();
        assert(es =~= s.push(es.last()));
        assert(none_earlier(d, s)) by {
            assert forall|k: int| 0 <= k < s.len() implies not_later(d, #[trigger] s[k].date) by {
                assert(s[k] == es[k]);
            }
        }
        lemma_filter_none_earlier(d, s, p);
        s.lemma_filter_push(es.last(), p);
        assert(not_later(d, es[es.len() - 1].date));
    }
}

proof fn lemma_filter_descending(es: Seq<EntryView>, p: spec_fn(EntryView) -> bool)
    requires
        dates_descending(es),
    ensures
        dates_descending(es.filter(p)),
    decreases es.len(),
{
    if es.len() == 0 {
        assert(es.filter(p) =~= es) by {
            reveal(Seq::filter);
        }
    } else {
        let s = es.drop_last();
        let last = es.last();
        assert(es =~= s.push(last));
        assert(dates_descending(s)) by {
            assert forall|i: int, j: int| 0 <= i < j < s.len() implies not_later(
                #[trigger] s[j].date,
                #[trigger] s[i].date,
            ) by {
                assert(s[i] == es[i] && s[j] == es[j]);
            }
        }
        lemma_filter_descending(s, p);
        s.lemma_filter_push(last, p);
        if p(last) {
            let f = s.filter(p);
            let g = f.push(last);
            assert forall|k: int| 0 <= k < s.len() implies not_later(
                last.date,
                #[trigger] s[k].date,
            ) by {
                assert(s[k] == es[k]);
                assert(last == es[es.len() - 1]);
                assert(not_later(es[es.len() - 1].date, es[k].date));
            }
            // every kept entry is no earlier than the last one
            assert forall|i: int, j: int| 0 <= i < j < g.len() implies not_later(
                #[trigger] g[j].date,
                #[trigger] g[i].date,
            ) by {
                if j == g.len() - 1 {
                    lemma_filter_later_bound(last.date, s, p, i);
                } else {
                    assert(g[i] == f[i] && g[j] == f[j]);
                }
            }
        }
    }
}

proof fn lemma_filter_later_bound(
    d: crate::date::EntryDate,
    s: Seq<EntryView>,
    p: spec_fn(EntryView) -> bool,
    i: int,
)
    requires
        forall|k: int| 0 <= k < s.len() ==> not_later(d, #[trigger] s[k].date),
        0 <= i < s.filter(p).len(),
    ensures
        not_later(d, s.filter(p)[i].date),
{
    lemma_filter_none_earlier(d, s, p);
}

/// A feed's entries come out most recent first: filtering entries that are
/// in newest-first order by membership in feed `id` keeps that order.
pub proof fn law_feed_newest_first(entries: Seq<BlogEntry>, id: u32)
    requires
        newest_first(entries),
    ensures
        dates_descending(views(entries).filter(|e: EntryView| e.additional_feeds.contains(id))),
{
    let es = views(entries);
    assert forall|i: int, j: int| 0 <= i < j < es.len() implies not_later(
        #[trigger] es[j].date,
        #[trigger] es[i].date,
    ) by {
        assert(es[i] == entries[i]@ && es[j] == entries[j]@);
        assert(not_later(entries[j].date, entries[i].date));
    }
    lemma_filter_descending(es, |e: EntryView| e.additional_feeds.contains(id));
}

} // verus!
