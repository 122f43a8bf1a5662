//! Extraction of links, images and titles from a fetched document.
//!
//! Parsing HTML and resolving URLs are done by outside parsers behind the
//! trusted wrappers below; everything that decides what ends up in a
//! [`ScrapeOutput`] is verified here. Fetching the document is I/O and is the
//! caller's business: a failed fetch degrades to [`ScrapeOutput::empty`].

use vstd::prelude::*;

use crate::crawler::{ScrapeOption, ScrapeOutput};
use crate::model::image::{Image, ImageView};

verus! {

/// The `href` attributes of the `<a>` elements of a document, in document
/// order.
pub uninterp spec fn anchor_hrefs(html: Seq<char>) -> Seq<Seq<char>>;

/// The `(src, alt)` attribute pairs of the `<img src=..>` elements of a
/// document, in document order, with an absent `alt` read as empty.
pub uninterp spec fn image_attrs(html: Seq<char>) -> Seq<(Seq<char>, Seq<char>)>;

/// The concatenated text of each element of a document that the selector
/// `tag` matches, in document order.
pub uninterp spec fn tag_texts(html: Seq<char>, tag: Seq<char>) -> Seq<Seq<char>>;

/// The normalized serialization of `s` parsed as an absolute URL, if it is
/// one.
pub uninterp spec fn parse_url(s: Seq<char>) -> Option<Seq<char>>;

/// The normalized serialization of `rel` resolved against the URL `base`, if
/// both steps succeed.
pub uninterp spec fn join_url(base: Seq<char>, rel: Seq<char>) -> Option<Seq<char>>;

/// Relies on scraper's `Html::parse_document` and its selector matching: the
/// anchors of a document, and so their `href` attributes, are a function of
/// the document text alone.
#[verifier::external_body]
fn scrape_anchor_hrefs(html: &str) -> (r: Vec<String>)
    ensures
        r.deep_view() == anchor_hrefs(html@),
{
    let sel = scraper::Selector::parse("a").unwrap();
    scraper::Html::parse_document(html)
        .select(&sel)
        .filter_map(|e| e.value().attr("href"))
        .map(|h| h.to_string())
        .collect()
}

/// Relies on scraper's `Html::parse_document` and its selector matching: the
/// `img[src]` elements of a document, and so their `src` and `alt`
/// attributes, are a function of the document text alone.
#[verifier::external_body]
fn scrape_image_attrs(html: &str) -> (r: Vec<(String, String)>)
    ensures
        r.deep_view() == image_attrs(html@),
{
    let sel = scraper::Selector::parse("img[src]").unwrap();
    scraper::Html::parse_document(html)
        .select(&sel)
        .filter_map(|e| {
            let alt = e.value().attr("alt").unwrap_or("");
            e.value().attr("src").map(|s| (s.to_string(), alt.to_string()))
        })
        .collect()
}

/// Relies on scraper's `Html::parse_document`, `Selector::parse` and element
/// text collection: what the selector `tag` matches, and each match's text,
/// are functions of the document text and the selector alone (an invalid
/// selector matches nothing).
#[verifier::external_body]
fn scrape_tag_texts(html: &str, tag: &str) -> (r: Vec<String>)
    ensures
        r.deep_view() == tag_texts(html@, tag@),
{
    match scraper::Selector::parse(tag) {
        Ok(sel) => scraper::Html::parse_document(html)
            .select(&sel)
            .map(|e| e.text().collect::<String>())
            .collect(),
        Err(_) => Vec::new(),
    }
}

/// Relies on url's `Url::parse` and its `Display` serialization: whether a
/// string is an absolute URL, and its normalized form, are functions of the
/// string alone.
#[verifier::external_body]
fn url_parse_abs(s: &str) -> (r: Option<String>)
    ensures
        r.deep_view() == parse_url(s@),
{
    url::Url::parse(s).ok().map(|u| u.to_string())
}

/// Relies on url's `Url::parse` and `Url::join`: resolving `rel` against the
/// URL parsed from `base` is a function of the two strings alone.
#[verifier::external_body]
fn url_join(base: &str, rel: &str) -> (r: Option<String>)
    ensures
        r.deep_view() == join_url(base@, rel@),
{
    match url::Url::parse(base) {
        Ok(b) => b.join(rel).ok().map(|u| u.to_string()),
        Err(_) => None,
    }
}

/// Where a link found on the page at `base` leads: an already-absolute link
/// is kept (in normalized form), any other is resolved against `base`, and
/// one that resolves to no valid URL at all is dropped.
pub open spec fn resolve_spec(rel: Seq<char>, base: Seq<char>) -> Option<Seq<char>> {
    if parse_url(rel) is Some {
        parse_url(rel)
    } else {
        join_url(base, rel)
    }
}

/// Turns one link found on the page at `base` into absolute form.
pub fn resolve_link(rel: &str, base: &str) -> (r: Option<String>)
    ensures
        r.deep_view() == resolve_spec(rel@, base@),
{
    match url_parse_abs(rel) {
        Some(u) => Some(u),
        None => url_join(base, rel),
    }
}

/// The absolute forms of `links`, in order, with unresolvable ones dropped.
pub open spec fn resolved_links(links: Seq<Seq<char>>, base: Seq<char>) -> Seq<Seq<char>>
    decreases links.len(),
{
    if links.len() == 0 {
        Seq::empty()
    } else {
        let rest = resolved_links(links.drop_last(), base);
        match resolve_spec(links.last(), base) {
            Some(u) => rest.push(u),
            None => rest,
        }
    }
}

/// Resolves every link of `links` against `base`, keeping order and dropping
/// unresolvable ones.
pub fn resolve_links(links: &Vec<String>, base: &str) -> (r: Vec<String>)
    ensures
        r.deep_view() == resolved_links(links.deep_view(), base@),
{
    let mut r: Vec<String> = Vec::new();
    let n = links.len();
    let mut i: usize = 0;
    while i < n
        invariant
            n == links@.len(),
            i <= n,
            r.deep_view() == resolved_links(links.deep_view().take(i as int), base@),
        decreases n - i,
    {
        proof {
            assert(links.deep_view().take(i + 1).drop_last() =~= links.deep_view().take(i as int));
            assert(links.deep_view().take(i + 1).last() == links@[i as int]@);
        }
        let ghost pre = r.deep_view();
        match resolve_link(links[i].as_str(), base) {
            Some(u) => {
                let ghost uv = u@;
                r.push(u);
                proof {
                    assert(r.deep_view() =~= pre.push(uv));
                }
            },
            None => {},
        }
        i += 1;
    }
    proof {
        assert(links.deep_view().take(n as int) =~= links.deep_view());
    }
    r
}

/// The images of the page at `base`: each raw `(src, alt)` pair with `src`
/// resolved to absolute form, and pairs whose source resolves to no valid
/// URL dropped.
pub open spec fn images_from(attrs: Seq<(Seq<char>, Seq<char>)>, base: Seq<char>) -> Seq<ImageView>
    decreases attrs.len(),
{
    if attrs.len() == 0 {
        Seq::empty()
    } else {
        let rest = images_from(attrs.drop_last(), base);
        match resolve_spec(attrs.last().0, base) {
            Some(u) => rest.push(ImageView { link: u, alt: attrs.last().1 }),
            None => rest,
        }
    }
}

/// Builds the page's [`Image`] records from raw `(src, alt)` attribute
/// pairs, resolving each source against `base`.
pub fn collect_images(attrs: &Vec<(String, String)>, base: &str) -> (r: Vec<Image>)
    ensures
        r.deep_view() == images_from(attrs.deep_view(), base@),
{
    let mut r: Vec<Image> = Vec::new();
    let n = attrs.len();
    let mut i: usize = 0;
    while i < n
        invariant
            n == attrs@.len(),
            i <= n,
            r.deep_view() == images_from(attrs.deep_view().take(i as int), base@),
        decreases n - i,
    {
        proof {
            assert(attrs.deep_view().take(i + 1).drop_last() =~= attrs.deep_view().take(i as int));
            assert(attrs.deep_view().take(i + 1).last() == attrs@[i as int].deep_view());
        }
        let ghost pre = r.deep_view();
        match resolve_link(attrs[i].0.as_str(), base) {
            Some(u) => {
                let img = Image { link: u, alt: attrs[i].1.clone() };
                let ghost iv = img@;
                r.push(img);
                proof {
                    assert(r.deep_view() =~= pre.push(iv));
                }
            },
            None => {},
        }
        i += 1;
    }
    proof {
        assert(attrs.deep_view().take(n as int) =~= attrs.deep_view());
    }
    r
}

/// The titles of a page: the text of its `h1` elements, then of its `h2`
/// elements, then of its `title` elements.
pub open spec fn title_texts(html: Seq<char>) -> Seq<Seq<char>> {
    tag_texts(html, "h1"@) + tag_texts(html, "h2"@) + tag_texts(html, "title"@)
}

/// Scrapes all the titles from the page: `title` tags, `h1` and `h2` tags.
pub fn page_titles(html: &str) -> (r: Vec<String>)
    ensures
        r.deep_view() == title_texts(html@),
{
    let mut r = scrape_tag_texts(html, "h1");
    let ghost d1 = r.deep_view();
    let mut r2 = scrape_tag_texts(html, "h2");
    let ghost d2 = r2.deep_view();
    let mut r3 = scrape_tag_texts(html, "title");
    let ghost d3 = r3.deep_view();
    r.append(&mut r2);
    proof {
        assert(r.deep_view() =~= d1 + d2);
    }
    let ghost d12 = r.deep_view();
    r.append(&mut r3);
    proof {
        assert(r.deep_view() =~= d12 + d3);
        assert(r.deep_view() =~= title_texts(html@));
    }
    r
}

/// Whether the scrape options ask for images.
pub open spec fn wants_images(options: Seq<ScrapeOption>) -> bool {
    exists|i: int| 0 <= i < options.len() && options[i] is Images
}

/// Whether the scrape options ask for titles.
pub open spec fn wants_titles(options: Seq<ScrapeOption>) -> bool {
    exists|i: int| 0 <= i < options.len() && options[i] is Titles
}

/// Extending the options by one either leaves a want unchanged or grants it.
proof fn lemma_wants_step(options: Seq<ScrapeOption>, i: int)
    requires
        0 <= i < options.len(),
    ensures
        wants_images(options.take(i + 1)) == (wants_images(options.take(i))
            || options[i] is Images),
        wants_titles(options.take(i + 1)) == (wants_titles(options.take(i))
            || options[i] is Titles),
{
    let a = options.take(i);
    let b = options.take(i + 1);
    if wants_images(b) {
        let j = choose|j: int| 0 <= j < b.len() && b[j] is Images;
        if j < i {
            assert(a[j] is Images);
            assert(wants_images(a));
        }
    }
    if wants_images(a) {
        let j = choose|j: int| 0 <= j < a.len() && a[j] is Images;
        assert(b[j] is Images);
        assert(wants_images(b));
    }
    if options[i] is Images {
        assert(b[i] is Images);
        assert(wants_images(b));
    }
    if wants_titles(b) {
        let j = choose|j: int| 0 <= j < b.len() && b[j] is Titles;
        if j < i {
            assert(a[j] is Titles);
            assert(wants_titles(a));
        }
    }
    if wants_titles(a) {
        let j = choose|j: int| 0 <= j < a.len() && a[j] is Titles;
        assert(b[j] is Titles);
        assert(wants_titles(b));
    }
    if options[i] is Titles {
        assert(b[i] is Titles);
        assert(wants_titles(b));
    }
}

/// The compute half of a page visit: given the text of the document fetched
/// from `url`, extract the outbound links in absolute form, and the images
/// and titles when `options` ask for them. Fetching, and degrading a failed
/// fetch to [`ScrapeOutput::empty`], are the caller's side of the split.
pub fn extract_page(url: &str, html: &str, options: &[ScrapeOption]) -> (out: ScrapeOutput)
    ensures
        out.links.deep_view() == resolved_links(anchor_hrefs(html@), url@),
        out.images.deep_view() == (if wants_images(options@) {
            images_from(image_attrs(html@), url@)
        } else {
            Seq::<ImageView>::empty()
        }),
        out.titles.deep_view() == (if wants_titles(options@) {
            title_texts(html@)
        } else {
            Seq::<Seq<char>>::empty()
        }),
{
    let hrefs = scrape_anchor_hrefs(html);
    let links = resolve_links(&hrefs, url);
    let mut images: Vec<Image> = Vec::new();
    let mut titles: Vec<String> = Vec::new();
    proof {
        assert(images.deep_view() =~= Seq::<ImageView>::empty());
        assert(titles.deep_view() =~= Seq::<Seq<char>>::empty());
    }
    let n = options.len();
    let mut i: usize = 0;
    while i < n
        invariant
            n == options@.len(),
            i <= n,
            links.deep_view() == resolved_links(anchor_hrefs(html@), url@),
            images.deep_view() == (if wants_images(options@.take(i as int)) {
                images_from(image_attrs(html@), url@)
            } else {
                Seq::<ImageView>::empty()
            }),
            titles.deep_view() == (if wants_titles(options@.take(i as int)) {
                title_texts(html@)
            } else {
                Seq::<Seq<char>>::empty()
            }),
        decreases n - i,
    {
        proof {
            lemma_wants_step(options@, i as int);
        }
        match &options[i] {
            ScrapeOption::Images => {
                let attrs = scrape_image_attrs(html);
                images = collect_images(&attrs, url);
            },
            ScrapeOption::Titles => {
                titles = page_titles(html);
            },
        }
        i += 1;
    }
    proof {
        assert(options@.take(n as int) =~= options@);
    }
    ScrapeOutput { links, images, titles }
}

} // verus!
