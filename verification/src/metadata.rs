//! Page metadata for a bookmark: its title and icon, read from the page's
//! HTML.

use vstd::prelude::*;
use crate::models::SiteMetadata;
use crate::text::{trim, trim_str};
use crate::url_ops::{host_of, parse_url, resolve_url, spec_resolve_url, spec_url_host, spec_url_parse, spec_url_scheme, url_scheme};

verus! {

/// The inner HTML of every element of the parsed document that a CSS
/// selector matches, in document order (none when the selector does not
/// parse), as `scraper` gives them.
pub uninterp spec fn spec_select_inner_html(html: Seq<char>, selector: Seq<char>) -> Seq<Seq<char>>;

/// The value of one attribute of every element of the parsed document that
/// a CSS selector matches, in document order (`None` for an element without
/// it; none at all when the selector does not parse), as `scraper` gives
/// them.
pub uninterp spec fn spec_select_attr(html: Seq<char>, selector: Seq<char>, attr: Seq<char>) -> Seq<Option<Seq<char>>>;

pub open spec fn opt_views(v: Seq<Option<String>>) -> Seq<Option<Seq<char>>> {
    v.map_values(|o: Option<String>| match o {
        Some(s) => Some(s@),
        None => None,
    })
}

/// `scraper::Html::parse_document`, `Selector::parse`, `Html::select` and
/// `ElementRef::inner_html`: the inner HTML of the matched elements. The
/// result is named, not described.
#[verifier::external_body]
fn select_inner_html(html: &str, selector: &str) -> (r: Vec<String>)
    ensures
        crate::text::views(r@) == spec_select_inner_html(html@, selector@),
{
    let mut out = Vec::new();
    if let Ok(sel) = scraper::Selector::parse(selector) {
        let doc = scraper::Html::parse_document(html);
        for el in doc.select(&sel) {
            out.push(el.inner_html());
        }
    }
    out
}

/// `scraper::Html::parse_document`, `Selector::parse`, `Html::select` and
/// `Element::attr`: one attribute of the matched elements. The result is
/// named, not described.
#[verifier::external_body]
fn select_attr(html: &str, selector: &str, attr: &str) -> (r: Vec<Option<String>>)
    ensures
        opt_views(r@) == spec_select_attr(html@, selector@, attr@),
{
    let mut out = Vec::new();
    if let Ok(sel) = scraper::Selector::parse(selector) {
        let doc = scraper::Html::parse_document(html);
        for el in doc.select(&sel) {
            out.push(el.value().attr(attr).map(String::from));
        }
    }
    out
}

/// The first present value.
pub open spec fn first_present(v: Seq<Option<Seq<char>>>) -> Option<Seq<char>>
    decreases v.len(),
{
    if v.len() == 0 {
        None
    } else if v[0] is Some {
        v[0]
    } else {
        first_present(v.drop_first())
    }
}

/// The metadata of a page at `page_url` whose `<title>` elements hold
/// `titles`, whose `og:title` metas have the `content` values `og_titles`,
/// and whose icon links have the `href` values `icon_hrefs`: the first
/// title, trimmed, else the first `og:title` meta's content, trimmed; the
/// first icon link with an `href`, made absolute against the page, else
/// `/favicon.ico` on the page's host (none for a page URL that does not
/// parse).
pub open spec fn metadata_spec(
    page_url: Seq<char>,
    titles: Seq<Seq<char>>,
    og_titles: Seq<Option<Seq<char>>>,
    icon_hrefs: Seq<Option<Seq<char>>>,
) -> (Option<Seq<char>>, Option<Seq<char>>) {
    let title = if titles.len() > 0 {
        Some(trim(titles[0]))
    } else if og_titles.len() > 0 && og_titles[0] is Some {
        Some(trim(og_titles[0]->0))
    } else {
        None
    };
    let icon = match first_present(icon_hrefs) {
        Some(h) => Some(spec_resolve_url(page_url, h)),
        None => match spec_url_parse(page_url) {
            Some(u) => Some(
                spec_url_scheme(u) + "://"@ + match spec_url_host(u) {
                    Some(h) => h,
                    None => Seq::empty(),
                } + "/favicon.ico"@,
            ),
            None => None,
        },
    };
    (title, icon)
}

pub open spec fn meta_view(m: SiteMetadata) -> (Option<Seq<char>>, Option<Seq<char>>) {
    (
        match m.title {
            Some(t) => Some(t@),
            None => None,
        },
        match m.favicon_url {
            Some(f) => Some(f@),
            None => None,
        },
    )
}

/// The metadata from what the page's elements hold (see `metadata_spec`).
pub fn metadata_from_parts(
    page_url: &str,
    titles: &Vec<String>,
    og_titles: &Vec<Option<String>>,
    icon_hrefs: &Vec<Option<String>>,
) -> (r: SiteMetadata)
    ensures
        meta_view(r) == metadata_spec(page_url@, crate::text::views(titles@), opt_views(og_titles@), opt_views(icon_hrefs@)),
{
    let title = if titles.len() > 0 {
        Some(trim_str(titles[0].as_str()))
    } else if og_titles.len() > 0 && og_titles[0].is_some() {
        match &og_titles[0] {
            Some(c) => Some(trim_str(c.as_str())),
            None => None,
        }
    } else {
        None
    };
    let ghost hv = opt_views(icon_hrefs@);
    let mut i: usize = 0;
    assert(hv.skip(0) == hv);
    while i < icon_hrefs.len() && icon_hrefs[i].is_none()
        invariant
            i <= icon_hrefs.len(),
            hv == opt_views(icon_hrefs@),
            first_present(hv) == first_present(hv.skip(i as int)),
        decreases icon_hrefs.len() - i,
    {
        proof {
            assert(hv.skip(i as int).drop_first() == hv.skip(i + 1));
            assert(hv.skip(i as int)[0] == hv[i as int]);
        }
        i = i + 1;
    }
    let icon = if i < icon_hrefs.len() {
        proof {
            assert(hv.skip(i as int)[0] == hv[i as int]);
        }
        match &icon_hrefs[i] {
            Some(h) => Some(resolve_url(page_url, h.as_str())),
            None => None,
        }
    } else {
        assert(hv.skip(i as int).len() == 0);
        match parse_url(page_url) {
            Some(u) => {
                let mut s = url_scheme(u.as_str());
                s.append("://");
                match host_of(u.as_str()) {
                    Some(h) => s.append(h.as_str()),
                    None => {},
                }
                s.append("/favicon.ico");
                Some(s)
            },
            None => None,
        }
    };
    SiteMetadata { title, favicon_url: icon }
}

/// The CSS selectors metadata is read with.
pub open spec fn title_selector() -> Seq<char> {
    "title"@
}

pub open spec fn og_title_selector() -> Seq<char> {
    "meta[property='og:title']"@
}

pub open spec fn icon_selector() -> Seq<char> {
    "link[rel~='icon'], link[rel='shortcut icon']"@
}

/// Reads a page's title and icon from its HTML.
pub fn extract_metadata(page_url: &str, html: &str) -> (r: SiteMetadata)
    ensures
        meta_view(r) == metadata_spec(
            page_url@,
            spec_select_inner_html(html@, title_selector()),
            spec_select_attr(html@, og_title_selector(), "content"@),
            spec_select_attr(html@, icon_selector(), "href"@),
        ),
{
    let titles = select_inner_html(html, "title");
    let og = select_attr(html, "meta[property='og:title']", "content");
    let icons = select_attr(html, "link[rel~='icon'], link[rel='shortcut icon']", "href");
    metadata_from_parts(page_url, &titles, &og, &icons)
}

} // verus!
