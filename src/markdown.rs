//! Markdown transformation: metadata directives in HTML comments, and fenced
//! `image_description` blocks turned into a captioned division.
use vstd::prelude::*;
use pulldown_cmark::CodeBlockKind;
use pulldown_cmark::CowStr;
use pulldown_cmark::Event;
use pulldown_cmark::Options;
use pulldown_cmark::Parser;
use pulldown_cmark::Tag;
use crate::feeds::FeedTracker;
use crate::text::chars_of;
use crate::text::same_chars;
use crate::text::string_of;
use crate::text::sub_chars;
use crate::text::trim;
use crate::text::trimmed;

verus! {

/// What the transformer reads of a markdown event.
pub enum EventKind {
    /// The start of a fenced code block with its language tag.
    FencedStart { language: String },
    /// The end of a fenced code block with its language tag.
    FencedEnd { language: String },
    /// Raw HTML.
    Html { text: String },
    /// Anything else.
    Other,
}

/// `EventKind` as plain character sequences.
pub enum KindView {
    FencedStart { language: Seq<char> },
    FencedEnd { language: Seq<char> },
    Html { text: Seq<char> },
    Other,
}

impl View for EventKind {
    type V = KindView;

    open spec fn view(&self) -> KindView {
        match self {
            EventKind::FencedStart { language } => KindView::FencedStart { language: language@ },
            EventKind::FencedEnd { language } => KindView::FencedEnd { language: language@ },
            EventKind::Html { text } => KindView::Html { text: text@ },
            EventKind::Other => KindView::Other,
        }
    }
}

/// The kinds of the events that markdown `input` parses into, with tables on.
pub uninterp spec fn markdown_kinds(input: Seq<char>) -> Seq<KindView>;

/// The HTML that markdown `input` (tables on) renders to when its `i`-th
/// event is replaced by the raw HTML `plan[i]` wherever that holds a value
/// and kept otherwise.
pub uninterp spec fn rendered_html(input: Seq<char>, plan: Seq<Option<Seq<char>>>) -> Seq<char>;

/// Plain views of `kinds`, in order.
pub open spec fn kinds_of(kinds: Seq<EventKind>) -> Seq<KindView> {
    kinds.map_values(|k: EventKind| k@)
}

/// Plain views of a rendering plan, in order.
pub open spec fn plan_view(plan: Seq<Option<&'static str>>) -> Seq<Option<Seq<char>>> {
    plan.map_values(
        |o: Option<&'static str>|
            match o {
                Some(m) => Some(m@),
                None => None,
            },
    )
}

/// Relies on pulldown-cmark's `Parser::new_ext` with tables enabled: the
/// events depend on the input alone.
#[verifier::external_body]
fn parse_kinds(input: &str) -> (r: Vec<EventKind>)
    ensures
        kinds_of(r@) == markdown_kinds(input@),
{
    let mut options = Options::empty();
    options.insert(Options::ENABLE_TABLES);
    Parser::new_ext(input, options).map(|event| match event {
        Event::Start(Tag::CodeBlock(CodeBlockKind::Fenced(l))) => EventKind::FencedStart { language: l.to_string() },
        Event::End(Tag::CodeBlock(CodeBlockKind::Fenced(l))) => EventKind::FencedEnd { language: l.to_string() },
        Event::Html(h) => EventKind::Html { text: h.to_string() },
        _ => EventKind::Other,
    }).collect()
}

/// Relies on pulldown-cmark's `Parser::new_ext` with tables enabled and
/// `html::push_html`: the HTML depends on the input and the plan alone.
#[verifier::external_body]
fn render_html(input: &str, plan: &[Option<&'static str>]) -> (r: String)
    ensures
        r@ == rendered_html(input@, plan_view(plan@)),
{
    let mut options = Options::empty();
    options.insert(Options::ENABLE_TABLES);
    let events = Parser::new_ext(input, options).zip(plan.iter()).map(|(event, step)| match step {
        Some(m) => Event::Html(CowStr::Borrowed(m)),
        None => event,
    });
    let mut html = String::new();
    pulldown_cmark::html::push_html(&mut html, events);
    html
}

/// The language tag whose fenced blocks become image descriptions.
pub const IMAGE_DESCRIPTION: &'static str = "image_description";

/// Markup that opens an image description.
pub const IMAGE_DESCRIPTION_OPEN: &'static str = "<div class=\"ImageDescription\"><p>";

/// Markup that closes an image description.
pub const IMAGE_DESCRIPTION_CLOSE: &'static str = "</p></div>";

/// The raw HTML that replaces an event of kind `k`, if any: fenced
/// `image_description` blocks open and close a captioned division; every
/// other event is kept.
pub open spec fn step_for(k: KindView) -> Option<Seq<char>> {
    match k {
        KindView::FencedStart { language } => if language == IMAGE_DESCRIPTION@ {
            Some(IMAGE_DESCRIPTION_OPEN@)
        } else {
            None
        },
        KindView::FencedEnd { language } => if language == IMAGE_DESCRIPTION@ {
            Some(IMAGE_DESCRIPTION_CLOSE@)
        } else {
            None
        },
        _ => None,
    }
}

/// The rendering plan for events of kinds `kinds`.
pub open spec fn plan_of(kinds: Seq<KindView>) -> Seq<Option<Seq<char>>> {
    kinds.map_values(|k: KindView| step_for(k))
}

/// Whether `h` is wrapped in `<!--` and `-->`, the two not overlapping.
pub open spec fn is_comment(h: Seq<char>) -> bool {
    &&& h.len() >= 7
    &&& h[0] == '<' && h[1] == '!' && h[2] == '-' && h[3] == '-'
    &&& h[h.len() - 3] == '-' && h[h.len() - 2] == '-' && h[h.len() - 1] == '>'
}

/// The position of the first `:` in `s` at or after `k`.
pub open spec fn colon_from(s: Seq<char>, k: int) -> Option<int>
    decreases s.len() - k,
{
    if k < 0 || k >= s.len() {
        None
    } else if s[k] == ':' {
        Some(k)
    } else {
        colon_from(s, k + 1)
    }
}

/// The label and trimmed value of the directive that raw HTML `text` holds:
/// a comment `<!--label:value-->` once surrounding white space is trimmed,
/// split at its first `:`.
pub open spec fn directive_of(text: Seq<char>) -> Option<(Seq<char>, Seq<char>)> {
    let h = trim(text);
    if !is_comment(h) {
        None
    } else {
        let contents = h.subrange(4, h.len() - 3);
        match colon_from(contents, 0) {
            None => None,
            Some(c) => Some(
                (contents.subrange(0, c), trim(contents.subrange(c + 1, contents.len() as int))),
            ),
        }
    }
}

/// The directive held by raw HTML `text`, if any, as label and value.
pub fn directive(text: &str) -> (r: Option<(Vec<char>, Vec<char>)>)
    ensures
        match directive_of(text@) {
            None => r is None,
            Some((label, value)) => r matches Some((l, v)) && l@ == label && v@ == value,
        },
{
    let h = trimmed(&chars_of(text));
    let n = h.len();
    if n < 7 || h[0] != '<' || h[1] != '!' || h[2] != '-' || h[3] != '-' || h[n - 3] != '-'
        || h[n - 2] != '-' || h[n - 1] != '>' {
        return None;
    }
    let contents = sub_chars(&h, 4, n - 3);
    let m = contents.len();
    let mut c: usize = 0;
    while c < m && contents[c] != ':'
        invariant
            c <= m == contents@.len(),
            colon_from(contents@, 0) == colon_from(contents@, c as int),
        decreases m - c,
    {
        c = c + 1;
    }
    if c == m {
        return None;
    }
    let label = sub_chars(&contents, 0, c);
    let value = trimmed(&sub_chars(&contents, c + 1, m));
    Some((label, value))
}

/// Metadata a document declares through directives.
pub struct Metadata {
    pub title: String,
    pub description: String,
    pub author: String,
    pub date: String,
    /// Ids of the feeds the document joins, one per `additional-feed`.
    pub additional_feeds: Vec<u32>,
}

/// `Metadata` as plain values.
pub struct MetaView {
    pub title: Seq<char>,
    pub description: Seq<char>,
    pub author: Seq<char>,
    pub date: Seq<char>,
    pub additional_feeds: Seq<u32>,
}

impl View for Metadata {
    type V = MetaView;

    open spec fn view(&self) -> MetaView {
        MetaView {
            title: self.title@,
            description: self.description@,
            author: self.author@,
            date: self.date@,
            additional_feeds: self.additional_feeds@,
        }
    }
}

/// Metadata before any directive.
pub open spec fn empty_meta() -> MetaView {
    MetaView {
        title: Seq::empty(),
        description: Seq::empty(),
        author: Seq::empty(),
        date: Seq::empty(),
        additional_feeds: Seq::empty(),
    }
}

/// The registry of feed names after looking up `name`, and the id it gives.
pub open spec fn identify_spec(names: Seq<Seq<char>>, name: Seq<char>) -> (Seq<Seq<char>>, u32) {
    if names.contains(name) {
        (names, names.index_of(name) as u32)
    } else {
        (names.push(name), names.len() as u32)
    }
}

/// Metadata and feed registry after the directive `label: value`. The
/// four text labels overwrite; `additional-feed` accumulates ids; other
/// labels change nothing.
pub open spec fn apply_directive(
    st: (MetaView, Seq<Seq<char>>),
    label: Seq<char>,
    value: Seq<char>,
) -> (MetaView, Seq<Seq<char>>) {
    let m = st.0;
    if label == "title"@ {
        (MetaView { title: value, ..m }, st.1)
    } else if label == "description"@ {
        (MetaView { description: value, ..m }, st.1)
    } else if label == "author"@ {
        (MetaView { author: value, ..m }, st.1)
    } else if label == "date"@ {
        (MetaView { date: value, ..m }, st.1)
    } else if label == "additional-feed"@ {
        let (names, id) = identify_spec(st.1, value);
        (MetaView { additional_feeds: m.additional_feeds.push(id), ..m }, names)
    } else {
        st
    }
}

/// Metadata and feed registry after reading one event.
pub open spec fn step(st: (MetaView, Seq<Seq<char>>), kind: KindView) -> (
    MetaView,
    Seq<Seq<char>>,
) {
    match kind {
        KindView::Html { text } => match directive_of(text) {
            Some((label, value)) => apply_directive(st, label, value),
            None => st,
        },
        _ => st,
    }
}

/// Metadata and feed registry after reading `kinds` in order, from `st`.
pub open spec fn extract(kinds: Seq<KindView>, st: (MetaView, Seq<Seq<char>>)) -> (
    MetaView,
    Seq<Seq<char>>,
)
    decreases kinds.len(),
{
    if kinds.len() == 0 {
        st
    } else {
        step(extract(kinds.drop_last(), st), kinds.last())
    }
}

/// Reads the directive `label: value` into `meta` and `tracker`.
fn apply(meta: &mut Metadata, tracker: &mut FeedTracker, label: &[char], value: &[char])
    requires
        old(tracker).wf(),
        old(tracker)@.len() < u32::MAX,
    ensures
        final(tracker).wf(),
        final(tracker)@.len() <= old(tracker)@.len() + 1,
        (final(meta)@, final(tracker)@) == apply_directive(
            (old(meta)@, old(tracker)@),
            label@,
            value@,
        ),
{
    if same_chars(label, &chars_of("title")) {
        meta.title = string_of(value);
    } else if same_chars(label, &chars_of("description")) {
        meta.description = string_of(value);
    } else if same_chars(label, &chars_of("author")) {
        meta.author = string_of(value);
    } else if same_chars(label, &chars_of("date")) {
        meta.date = string_of(value);
    } else if same_chars(label, &chars_of("additional-feed")) {
        let name = string_of(value);
        let id = tracker.identify(name.as_str());
        proof {
            if old(tracker)@.contains(value@) {
                let k = old(tracker)@.index_of(value@);
                assert(old(tracker)@[k] == value@);
                assert(k == id);
            }
        }
        meta.additional_feeds.push(id);
    }
}

/// Reads every directive among events of kinds `kinds` into fresh
/// metadata, registering feeds in `tracker`, and gives the rendering plan:
/// fenced `image_description` blocks become a captioned division,
/// everything else is kept.
pub fn transform(kinds: &[EventKind], tracker: &mut FeedTracker) -> (r: (
    Vec<Option<&'static str>>,
    Metadata,
))
    requires
        old(tracker).wf(),
        old(tracker)@.len() + kinds@.len() < u32::MAX,
    ensures
        final(tracker).wf(),
        (r.1@, final(tracker)@) == extract(kinds_of(kinds@), (empty_meta(), old(tracker)@)),
        plan_view(r.0@) == plan_of(kinds_of(kinds@)),
{
    let ghost kv = kinds_of(kinds@);
    let mut meta = Metadata {
        title: String::new(),
        description: String::new(),
        author: String::new(),
        date: String::new(),
        additional_feeds: Vec::new(),
    };
    assert(meta@ == empty_meta());
    let mut plan: Vec<Option<&'static str>> = Vec::new();
    let ghost start = old(tracker)@;
    let image = chars_of(IMAGE_DESCRIPTION);
    let mut i: usize = 0;
    while i < kinds.len()
        invariant
            i <= kinds@.len(),
            kv == kinds_of(kinds@),
            image@ == IMAGE_DESCRIPTION@,
            tracker.wf(),
            tracker@.len() <= start.len() + i,
            start.len() + kinds@.len() < u32::MAX,
            (meta@, tracker@) == extract(kv.subrange(0, i as int), (empty_meta(), start)),
            plan@.len() == i,
            forall|j: int| 0 <= j < i ==> plan_view(plan@)[j] == step_for(#[trigger] kv[j]),
        decreases kinds@.len() - i,
    {
        proof {
            assert(kv.subrange(0, i + 1).drop_last() =~= kv.subrange(0, i as int));
            assert(kv[i as int] == kinds@[i as int]@);
        }
        let kind = &kinds[i];
        match kind {
            EventKind::Html { text } => {
                match directive(text.as_str()) {
                    Some((label, value)) => {
                        apply(&mut meta, tracker, &label, &value);
                    },
                    None => {},
                }
            },
            _ => {},
        }
        let step: Option<&'static str> = match kind {
            EventKind::FencedStart { language } => {
                if same_chars(&chars_of(language.as_str()), &image) {
                    Some(IMAGE_DESCRIPTION_OPEN)
                } else {
                    None
                }
            },
            EventKind::FencedEnd { language } => {
                if same_chars(&chars_of(language.as_str()), &image) {
                    Some(IMAGE_DESCRIPTION_CLOSE)
                } else {
                    None
                }
            },
            _ => None,
        };
        let ghost before = plan@;
        plan.push(step);
        proof {
            assert forall|j: int| 0 <= j < i + 1 implies plan_view(plan@)[j] == step_for(
                #[trigger] kv[j],
            ) by {
                if j < i {
                    assert(plan@[j] == before[j]);
                    assert(plan_view(before)[j] == step_for(kv[j]));
                }
            }
        }
        i = i + 1;
    }
    proof {
        assert(kv.subrange(0, kinds@.len() as int) =~= kv);
        assert(plan_view(plan@) =~= plan_of(kv));
    }
    (plan, meta)
}

/// Parses markdown `input` (tables on), reads its directives into fresh
/// metadata, registering feeds in `tracker`, and renders it to HTML with
/// image descriptions rewritten. Gives `None`, changing nothing, when feed
/// ids could run out.
pub fn process_markdown(input: &str, tracker: &mut FeedTracker) -> (r: Option<(String, Metadata)>)
    requires
        old(tracker).wf(),
    ensures
        final(tracker).wf(),
        old(tracker)@.len() + markdown_kinds(input@).len() < u32::MAX ==> (r matches Some((h, m))
            && (m@, final(tracker)@) == extract(markdown_kinds(input@), (empty_meta(), old(tracker)@))
            && h@ == rendered_html(input@, plan_of(markdown_kinds(input@)))),
        old(tracker)@.len() + markdown_kinds(input@).len() >= u32::MAX ==> r is None
            && final(tracker)@ == old(tracker)@,
{
    let kinds = parse_kinds(input);
    let limit = u32::MAX as usize;
    let known = tracker.len();
    if known >= limit || kinds.len() >= limit - known {
        return None;
    }
    let (plan, meta) = transform(kinds.as_slice(), tracker);
    let html = render_html(input, plan.as_slice());
    Some((html, meta))
}

/// Whether `kind` is a directive with `label`.
pub open spec fn is_directive_with(kind: KindView, label: Seq<char>) -> bool {
    match kind {
        KindView::Html { text } => match directive_of(text) {
            Some((l, _)) => l == label,
            None => false,
        },
        _ => false,
    }
}

proof fn lemma_extract_append(a: Seq<KindView>, b: Seq<KindView>, st: (MetaView, Seq<Seq<char>>))
    ensures
        extract(a + b, st) == extract(b, extract(a, st)),
    decreases b.len(),
{
    if b.len() == 0 {
        assert(a + b =~= a);
    } else {
        assert((a + b).drop_last() =~= a + b.drop_last());
        lemma_extract_append(a, b.drop_last(), st);
    }
}

proof fn lemma_title_untouched(rest: Seq<KindView>, st: (MetaView, Seq<Seq<char>>))
    requires
        forall|k: int| 0 <= k < rest.len() ==> !is_directive_with(#[trigger] rest[k], "title"@),
    ensures
        extract(rest, st).0.title == st.0.title,
    decreases rest.len(),
{
    if rest.len() > 0 {
        lemma_title_untouched(rest.drop_last(), st);
        assert(!is_directive_with(rest[rest.len() - 1], "title"@));
    }
}

proof fn lemma_description_untouched(rest: Seq<KindView>, st: (MetaView, Seq<Seq<char>>))
    requires
        forall|k: int|
            0 <= k < rest.len() ==> !is_directive_with(#[trigger] rest[k], "description"@),
    ensures
        extract(rest, st).0.description == st.0.description,
    decreases rest.len(),
{
    if rest.len() > 0 {
        lemma_description_untouched(rest.drop_last(), st);
        assert(!is_directive_with(rest[rest.len() - 1], "description"@));
    }
}

/// The last `title` directive wins: whatever came before, a title directive
/// with value `b` followed by events without a title directive leaves the
/// title `b`.
pub proof fn law_last_title_wins(
    before: Seq<KindView>,
    text: Seq<char>,
    b: Seq<char>,
    after: Seq<KindView>,
    st: (MetaView, Seq<Seq<char>>),
)
    requires
        directive_of(text) == Some(("title"@, b)),
        forall|k: int| 0 <= k < after.len() ==> !is_directive_with(#[trigger] after[k], "title"@),
    ensures
        extract(before + seq![KindView::Html { text }] + after, st).0.title == b,
{
    let one = seq![KindView::Html { text }];
    lemma_extract_append(before + one, after, st);
    lemma_extract_append(before, one, st);
    assert(one.drop_last() =~= Seq::<KindView>::empty());
    lemma_title_untouched(after, extract(before + one, st));
}

/// Without a `title` directive a document's title stays empty.
pub proof fn law_no_title_directive(kinds: Seq<KindView>, names: Seq<Seq<char>>)
    requires
        forall|k: int| 0 <= k < kinds.len() ==> !is_directive_with(#[trigger] kinds[k], "title"@),
    ensures
        extract(kinds, (empty_meta(), names)).0.title.len() == 0,
{
    lemma_title_untouched(kinds, (empty_meta(), names));
}

/// Without a `description` directive a document's description stays empty.
pub proof fn law_no_description_directive(kinds: Seq<KindView>, names: Seq<Seq<char>>)
    requires
        forall|k: int|
            0 <= k < kinds.len() ==> !is_directive_with(#[trigger] kinds[k], "description"@),
    ensures
        extract(kinds, (empty_meta(), names)).0.description.len() == 0,
{
    lemma_description_untouched(kinds, (empty_meta(), names));
}

/// The feed registry after looking up the names `ns` in order, starting
/// from an empty one.
pub open spec fn registry_after(ns: Seq<Seq<char>>) -> Seq<Seq<char>>
    decreases ns.len(),
{
    if ns.len() == 0 {
        Seq::empty()
    } else {
        identify_spec(registry_after(ns.drop_last()), ns.last()).0
    }
}

/// Whether every occurrence of `b` in `ns` comes after an occurrence of `a`.
pub open spec fn seen_before(ns: Seq<Seq<char>>, a: Seq<char>, b: Seq<char>) -> bool {
    forall|k: int| 0 <= k < ns.len() && #[trigger] ns[k] == b ==> exists|q: int| 0 <= q < k && #[trigger] ns[q] == a
}

/// Ids are handed out in first-seen order: after looking up `ns` in order,
/// the registry (whose positions are the ids) holds each name once, holds
/// every name looked up and nothing else, and a name stands before another
/// exactly when it was first looked up earlier.
pub proof fn law_ids_in_first_seen_order(ns: Seq<Seq<char>>)
    ensures
        registry_after(ns).no_duplicates(),
        forall|k: int| 0 <= k < ns.len() ==> registry_after(ns).contains(#[trigger] ns[k]),
        forall|i: int|
            0 <= i < registry_after(ns).len() ==> exists|k: int|
                0 <= k < ns.len() && ns[k] == #[trigger] registry_after(ns)[i],
        forall|i: int, j: int|
            0 <= i < j < registry_after(ns).len() ==> seen_before(
                ns,
                #[trigger] registry_after(ns)[i],
                #[trigger] registry_after(ns)[j],
            ),
    decreases ns.len(),
{
    if ns.len() > 0 {
        let p = ns.drop_last();
        let x = ns.last();
        let n = p.len() as int;
        law_ids_in_first_seen_order(p);
        let r = registry_after(p);
        assert forall|k: int| 0 <= k < n implies ns[k] == #[trigger] p[k] by {}
        assert forall|i: int| 0 <= i < r.len() implies exists|k: int|
            0 <= k < n && ns[k] == #[trigger] r[i] by {
            let k = choose|k: int| 0 <= k < p.len() && p[k] == r[i];
            assert(ns[k] == p[k]);
        }
        if r.contains(x) {
            assert(registry_after(ns) == r);
            assert forall|k: int| 0 <= k < ns.len() implies registry_after(ns).contains(#[trigger] ns[k]) by {
                if k < n {
                    assert(ns[k] == p[k]);
                    assert(r.contains(p[k]));
                }
            }
            assert forall|i: int| 0 <= i < registry_after(ns).len() implies exists|k: int|
                0 <= k < ns.len() && ns[k] == #[trigger] registry_after(ns)[i] by {
                let k = choose|k: int| 0 <= k < n && ns[k] == r[i];
            }
            assert forall|i: int, j: int|
                0 <= i < j < registry_after(ns).len() implies seen_before(
                ns,
                #[trigger] registry_after(ns)[i],
                #[trigger] registry_after(ns)[j],
            ) by {
                assert(seen_before(p, r[i], r[j]));
                assert forall|k: int| 0 <= k < ns.len() && #[trigger] ns[k] == r[j] implies exists|
                    q: int,
                | 0 <= q < k && #[trigger] ns[q] == r[i] by {
                    if k < n {
                        assert(p[k] == r[j]);
                        let q = choose|q: int| 0 <= q < k && p[q] == r[i];
                        assert(ns[q] == p[q]);
                    } else {
                        let q = choose|q: int| 0 <= q < n && ns[q] == r[i];
                    }
                }
            }
        } else {
            assert(registry_after(ns) == r.push(x));
            assert forall|k: int| 0 <= k < ns.len() implies registry_after(ns).contains(#[trigger] ns[k]) by {
                if k < n {
                    assert(ns[k] == p[k]);
                    assert(r.contains(p[k]));
                    let t = choose|t: int| 0 <= t < r.len() && r[t] == p[k];
                    assert(registry_after(ns)[t] == r[t]);
                } else {
                    assert(registry_after(ns)[r.len() as int] == x);
                }
            }
            assert forall|i: int| 0 <= i < registry_after(ns).len() implies exists|k: int|
                0 <= k < ns.len() && ns[k] == #[trigger] registry_after(ns)[i] by {
                if i < r.len() {
                    assert(registry_after(ns)[i] == r[i]);
                    let k = choose|k: int| 0 <= k < n && ns[k] == r[i];
                } else {
                    assert(ns[n] == registry_after(ns)[i]);
                }
            }
            assert forall|i: int, j: int|
                0 <= i < j < registry_after(ns).len() implies seen_before(
                ns,
                #[trigger] registry_after(ns)[i],
                #[trigger] registry_after(ns)[j],
            ) by {
                let ri = registry_after(ns)[i];
                let rj = registry_after(ns)[j];
                assert(ri == r[i]);
                assert forall|k: int| 0 <= k < ns.len() && #[trigger] ns[k] == rj implies exists|
                    q: int,
                | 0 <= q < k && #[trigger] ns[q] == ri by {
                    if j < r.len() {
                        assert(rj == r[j]);
                        assert(seen_before(p, r[i], r[j]));
                        if k < n {
                            assert(p[k] == r[j]);
                            let q = choose|q: int| 0 <= q < k && p[q] == r[i];
                            assert(ns[q] == p[q]);
                        } else {
                            assert(r.contains(r[j]));
                            assert(false);
                        }
                    } else {
                        assert(rj == x);
                        if k < n {
                            assert(ns[k] == p[k]);
                            assert(r.contains(p[k]));
                            assert(false);
                        }
                        let q = choose|q: int| 0 <= q < n && ns[q] == r[i];
                    }
                }
            }
            assert forall|a: int, b: int| 0 <= a < registry_after(ns).len() && 0 <= b < registry_after(ns).len() && a != b
                implies registry_after(ns)[a] != registry_after(ns)[b] by {
                if a < r.len() && b < r.len() {
                    assert(registry_after(ns)[a] == r[a] && registry_after(ns)[b] == r[b]);
                } else if a < r.len() {
                    assert(registry_after(ns)[a] == r[a]);
                    assert(r.contains(r[a]));
                } else {
                    assert(registry_after(ns)[b] == r[b]);
                    assert(r.contains(r[b]));
                }
            }
        }
    } else {
        assert(registry_after(ns) =~= Seq::<Seq<char>>::empty());
    }
}

} // verus!
