//! URLs: cleaning tracking parameters, the canonical form used to find
//! duplicates, hosts, and resolving relative links. A URL is passed around
//! as its serialization; the `url` crate does the parsing.

use vstd::prelude::*;
use crate::scanner::first_index_of;
use crate::text::{chars_of, str_eq, string_from_chars};

verus! {

// ---------------------------------------------------------------------------
// The url crate
// ---------------------------------------------------------------------------

/// The serialization of `Url::parse(s)`, `None` when `s` is not an absolute URL.
pub uninterp spec fn spec_url_parse(s: Seq<char>) -> Option<Seq<char>>;

/// `Url::query_pairs` of the URL serialized as `u`, decoded.
pub uninterp spec fn spec_url_query_pairs(u: Seq<char>) -> Seq<(Seq<char>, Seq<char>)>;

/// The URL serialized as `u` after `set_query(None)`.
pub uninterp spec fn spec_url_without_query(u: Seq<char>) -> Seq<char>;

/// The URL serialized as `u` after `query_pairs_mut().clear().extend_pairs(pairs)`.
pub uninterp spec fn spec_url_with_query_pairs(u: Seq<char>, pairs: Seq<(Seq<char>, Seq<char>)>) -> Seq<char>;

/// `Url::fragment` of the URL serialized as `u`: what follows its first
/// `#` (no part before the fragment holds an unencoded `#`).
pub open spec fn spec_url_fragment(u: Seq<char>) -> Option<Seq<char>> {
    match first_index_of(u, '#') {
        Some(i) => Some(u.skip(i as int + 1)),
        None => None,
    }
}

/// The URL serialized as `u` after `set_fragment(None)`.
pub uninterp spec fn spec_url_without_fragment(u: Seq<char>) -> Seq<char>;

/// `Url::host_str` of the URL serialized as `u`.
pub uninterp spec fn spec_url_host(u: Seq<char>) -> Option<Seq<char>>;

/// `Url::path` of the URL serialized as `u`.
pub uninterp spec fn spec_url_path(u: Seq<char>) -> Seq<char>;

/// `Url::query` of the URL serialized as `u`: what lies between its first
/// `?` and the fragment, when that `?` comes before the fragment (no part
/// before the query holds an unencoded `?`, none before the fragment an
/// unencoded `#`).
pub open spec fn spec_url_query(u: Seq<char>) -> Option<Seq<char>> {
    let before = match first_index_of(u, '#') {
        Some(i) => u.take(i as int),
        None => u,
    };
    match first_index_of(before, '?') {
        Some(j) => Some(before.skip(j as int + 1)),
        None => None,
    }
}

/// `Url::scheme` of the URL serialized as `u`: what comes before its first
/// `:` (a scheme holds no `:`, and every URL has one after it).
pub open spec fn spec_url_scheme(u: Seq<char>) -> Seq<char> {
    match first_index_of(u, ':') {
        Some(i) => u.take(i as int),
        None => u,
    }
}

/// The serialization of `Url::join(rel)` on the URL serialized as `u`.
pub uninterp spec fn spec_url_join(u: Seq<char>, rel: Seq<char>) -> Option<Seq<char>>;

/// `u` is the serialization of a URL: parsing it gives it back.
pub open spec fn is_url(u: Seq<char>) -> bool {
    spec_url_parse(u) == Some(u)
}

/// `url::Url::parse`, giving the URL's serialization. Every `Url` keeps the
/// invariant that its serialization parses back to the same URL (the crate
/// checks it in `Url::check_invariants`).
#[verifier::external_body]
fn url_parse(s: &str) -> (r: Option<String>)
    ensures
        match r {
            Some(u) => spec_url_parse(s@) == Some(u@) && is_url(u@),
            None => spec_url_parse(s@) is None,
        },
{
    url::Url::parse(s).ok().map(String::from)
}

/// `url::Url::query_pairs`, each pair decoded into owned strings.
/// The contract claims that the result is the named value for the URL
/// serialized as the argument (which must be one).
#[verifier::external_body]
fn url_query_pairs(u: &str) -> (r: Vec<(String, String)>)
    requires
        is_url(u@),
    ensures
        pair_views(r@) == spec_url_query_pairs(u@),
{
    let url = url::Url::parse(u).unwrap();
    url.query_pairs().map(|(k, v)| (k.into_owned(), v.into_owned())).collect()
}

/// `url::Url::set_query(None)`.
/// The contract claims that the result is the named value for the URL
/// serialized as the argument (which must be one), and that the new URL's
/// serialization, like every `Url`'s, parses back to itself. It also claims
/// what `set_query` shows: the new URL has no query, so no query pairs, and
/// clearing its query again changes nothing (the trailing spaces of an
/// opaque path left with neither query nor fragment are already gone); its
/// fragment is put back as it was.
#[verifier::external_body]
fn url_clear_query(u: &str) -> (r: String)
    requires
        is_url(u@),
    ensures
        r@ == spec_url_without_query(u@),
        is_url(r@),
        spec_url_query(r@) is None,
        spec_url_query_pairs(r@) == Seq::<(Seq<char>, Seq<char>)>::empty(),
        spec_url_without_query(r@) == r@,
        spec_url_fragment(r@) == spec_url_fragment(u@),
{
    let mut url = url::Url::parse(u).unwrap();
    url.set_query(None);
    url.into()
}

/// `url::Url::query_pairs_mut().clear().extend_pairs(pairs)`: the query
/// replaced by the given pairs, form-encoded.
/// The contract claims that the result is the named value for the URL
/// serialized as the argument (which must be one), and that the new URL's
/// serialization, like every `Url`'s, parses back to itself. It also claims
/// what `query_pairs_mut` and form_urlencoded show: the new URL has a query,
/// its query pairs read back as the pairs written (form_urlencoded decodes
/// what it encodes), writing the same pairs again changes nothing, and its
/// fragment is put back as it was.
#[verifier::external_body]
fn url_set_query_pairs(u: &str, pairs: &Vec<(String, String)>) -> (r: String)
    requires
        is_url(u@),
    ensures
        r@ == spec_url_with_query_pairs(u@, pair_views(pairs@)),
        is_url(r@),
        spec_url_query(r@) is Some,
        spec_url_query_pairs(r@) == pair_views(pairs@),
        spec_url_with_query_pairs(r@, pair_views(pairs@)) == r@,
        spec_url_fragment(r@) == spec_url_fragment(u@),
{
    let mut url = url::Url::parse(u).unwrap();
    url.query_pairs_mut().clear().extend_pairs(pairs.iter());
    url.into()
}

/// `url::Url::fragment`.
/// The contract claims that the result is the named value for the URL
/// serialized as the argument (which must be one).
#[verifier::external_body]
fn url_fragment(u: &str) -> (r: Option<String>)
    requires
        is_url(u@),
    ensures
        match r {
            Some(f) => spec_url_fragment(u@) == Some(f@),
            None => spec_url_fragment(u@) is None,
        },
{
    let url = url::Url::parse(u).unwrap();
    url.fragment().map(String::from)
}

/// `url::Url::set_fragment(None)`.
/// The contract claims that the result is the named value for the URL
/// serialized as the argument (which must be one), and that the new URL's
/// serialization, like every `Url`'s, parses back to itself. It also claims
/// what `set_fragment` shows: the new URL has no fragment and the same query
/// (so the same query pairs); with no query, clearing the query changes
/// nothing (the trailing spaces of an opaque path are already gone); with a
/// query, writing query pairs before or after dropping the fragment gives
/// the same URL.
#[verifier::external_body]
fn url_clear_fragment(u: &str) -> (r: String)
    requires
        is_url(u@),
    ensures
        r@ == spec_url_without_fragment(u@),
        is_url(r@),
        spec_url_fragment(r@) is None,
        spec_url_query(r@) == spec_url_query(u@),
        spec_url_query_pairs(r@) == spec_url_query_pairs(u@),
        spec_url_query(u@) is None ==> spec_url_without_query(r@) == r@,
        spec_url_query(u@) is Some ==> forall|p: Seq<(Seq<char>, Seq<char>)>|
            #[trigger] spec_url_with_query_pairs(r@, p) == spec_url_without_fragment(spec_url_with_query_pairs(u@, p)),
{
    let mut url = url::Url::parse(u).unwrap();
    url.set_fragment(None);
    url.into()
}

/// `url::Url::host_str`.
/// The contract claims that the result is the named value for the URL
/// serialized as the argument (which must be one).
#[verifier::external_body]
fn url_host(u: &str) -> (r: Option<String>)
    requires
        is_url(u@),
    ensures
        match r {
            Some(h) => spec_url_host(u@) == Some(h@),
            None => spec_url_host(u@) is None,
        },
{
    let url = url::Url::parse(u).unwrap();
    url.host_str().map(String::from)
}

/// `url::Url::path`.
/// The contract claims that the result is the named value for the URL
/// serialized as the argument (which must be one).
#[verifier::external_body]
fn url_path(u: &str) -> (r: String)
    requires
        is_url(u@),
    ensures
        r@ == spec_url_path(u@),
{
    let url = url::Url::parse(u).unwrap();
    String::from(url.path())
}

/// `url::Url::query`.
/// The contract claims that the result is the named value for the URL
/// serialized as the argument (which must be one).
#[verifier::external_body]
fn url_query(u: &str) -> (r: Option<String>)
    requires
        is_url(u@),
    ensures
        match r {
            Some(q) => spec_url_query(u@) == Some(q@),
            None => spec_url_query(u@) is None,
        },
{
    let url = url::Url::parse(u).unwrap();
    url.query().map(String::from)
}

/// `url::Url::scheme`.
/// The contract claims that the result is the named value for the URL
/// serialized as the argument (which must be one).
#[verifier::external_body]
pub(crate) fn url_scheme(u: &str) -> (r: String)
    requires
        is_url(u@),
    ensures
        r@ == spec_url_scheme(u@),
{
    let url = url::Url::parse(u).unwrap();
    String::from(url.scheme())
}

/// `url::Url::join`, giving the joined URL's serialization.
/// The contract claims that the result is the named value for the URL
/// serialized as the argument (which must be one).
#[verifier::external_body]
fn url_join(u: &str, rel: &str) -> (r: Option<String>)
    requires
        is_url(u@),
    ensures
        match r {
            Some(j) => spec_url_join(u@, rel@) == Some(j@),
            None => spec_url_join(u@, rel@) is None,
        },
{
    let url = url::Url::parse(u).unwrap();
    url.join(rel).ok().map(String::from)
}

pub open spec fn pair_views(v: Seq<(String, String)>) -> Seq<(Seq<char>, Seq<char>)> {
    v.map_values(|p: (String, String)| (p.0@, p.1@))
}

/// Parses a text as an absolute URL, giving its serialization.
pub fn parse_url(s: &str) -> (r: Option<String>)
    ensures
        match r {
            Some(u) => spec_url_parse(s@) == Some(u@) && is_url(u@),
            None => spec_url_parse(s@) is None,
        },
{
    url_parse(s)
}

/// The host of a URL serialization.
pub fn host_of(u: &str) -> (r: Option<String>)
    requires
        is_url(u@),
    ensures
        match r {
            Some(h) => spec_url_host(u@) == Some(h@),
            None => spec_url_host(u@) is None,
        },
{
    url_host(u)
}

// ---------------------------------------------------------------------------
// Cleaning
// ---------------------------------------------------------------------------

/// The query parameters that only serve tracking.
pub open spec fn is_tracking_param(k: Seq<char>) -> bool {
    ||| k == "utm_source"@
    ||| k == "utm_medium"@
    ||| k == "utm_campaign"@
    ||| k == "utm_term"@
    ||| k == "utm_content"@
    ||| k == "fbclid"@
    ||| k == "gclid"@
    ||| k == "msclkid"@
    ||| k == "ref"@
    ||| k == "_hsenc"@
    ||| k == "mc_cid"@
    ||| k == "mc_eid"@
}

pub fn is_tracking_param_name(k: &str) -> (r: bool)
    ensures
        r == is_tracking_param(k@),
{
    str_eq(k, "utm_source") || str_eq(k, "utm_medium") || str_eq(k, "utm_campaign") || str_eq(k, "utm_term")
        || str_eq(k, "utm_content") || str_eq(k, "fbclid") || str_eq(k, "gclid") || str_eq(k, "msclkid")
        || str_eq(k, "ref") || str_eq(k, "_hsenc") || str_eq(k, "mc_cid") || str_eq(k, "mc_eid")
}

/// The pairs whose name is not a tracking parameter, in order.
pub open spec fn kept_pairs(pairs: Seq<(Seq<char>, Seq<char>)>) -> Seq<(Seq<char>, Seq<char>)> {
    pairs.filter(|p: (Seq<char>, Seq<char>)| !is_tracking_param(p.0))
}

/// Cleaning keeps every parameter that is not a tracking one, in order, and
/// no tracking one: the kept pairs are exactly the others.
pub proof fn lemma_kept_pairs(pairs: Seq<(Seq<char>, Seq<char>)>)
    ensures
        forall|i: int| 0 <= i < kept_pairs(pairs).len() ==> !is_tracking_param(#[trigger] kept_pairs(pairs)[i].0),
        forall|i: int| 0 <= i < pairs.len() && !is_tracking_param(#[trigger] pairs[i].0) ==> kept_pairs(pairs).contains(pairs[i]),
        forall|p: (Seq<char>, Seq<char>)| #[trigger] kept_pairs(pairs).contains(p) ==> pairs.contains(p),
        kept_pairs(kept_pairs(pairs)) == kept_pairs(pairs),
{
    let f = |p: (Seq<char>, Seq<char>)| !is_tracking_param(p.0);
    assert forall|i: int| 0 <= i < kept_pairs(pairs).len() implies !is_tracking_param(#[trigger] kept_pairs(pairs)[i].0) by {
        pairs.lemma_filter_pred(f, i);
    }
    assert forall|i: int| 0 <= i < pairs.len() && !is_tracking_param(#[trigger] pairs[i].0) implies kept_pairs(pairs).contains(pairs[i]) by {
        pairs.lemma_filter_contains(f, i);
    }
    assert forall|p: (Seq<char>, Seq<char>)| #[trigger] kept_pairs(pairs).contains(p) implies pairs.contains(p) by {
        pairs.lemma_filter_contains_rev(f, p);
    }
    let k = kept_pairs(pairs);
    assert forall|i: int| 0 <= i < k.len() implies #[trigger] f(k[i]) by {
        pairs.lemma_filter_pred(f, i);
    }
    lemma_filter_all(k, f);
}

/// Cleaning drops exactly the query parameters named `utm_source`,
/// `utm_medium`, `utm_campaign`, `utm_term`, `utm_content`, `fbclid`,
/// `gclid`, `msclkid`, `ref`, `_hsenc`, `mc_cid` and `mc_eid` (exact names),
/// and keeps every other one, in order.
pub proof fn lemma_tracking_names(pairs: Seq<(Seq<char>, Seq<char>)>)
    ensures
        kept_pairs(pairs) == pairs.filter(|p: (Seq<char>, Seq<char>)| !(p.0 == "utm_source"@ || p.0 == "utm_medium"@ || p.0 == "utm_campaign"@ || p.0 == "utm_term"@ || p.0 == "utm_content"@ || p.0 == "fbclid"@ || p.0 == "gclid"@ || p.0 == "msclkid"@ || p.0 == "ref"@ || p.0 == "_hsenc"@ || p.0 == "mc_cid"@ || p.0 == "mc_eid"@)),
{
    let f = |p: (Seq<char>, Seq<char>)| !is_tracking_param(p.0);
    let g = |p: (Seq<char>, Seq<char>)| !(p.0 == "utm_source"@ || p.0 == "utm_medium"@ || p.0 == "utm_campaign"@ || p.0 == "utm_term"@ || p.0 == "utm_content"@ || p.0 == "fbclid"@ || p.0 == "gclid"@ || p.0 == "msclkid"@ || p.0 == "ref"@ || p.0 == "_hsenc"@ || p.0 == "mc_cid"@ || p.0 == "mc_eid"@);
    assert(f =~= g);
}

proof fn lemma_filter_all(s: Seq<(Seq<char>, Seq<char>)>, f: spec_fn((Seq<char>, Seq<char>)) -> bool)
    requires
        forall|i: int| 0 <= i < s.len() ==> #[trigger] f(s[i]),
    ensures
        s.filter(f) == s,
    decreases s.len(),
{
    reveal(Seq::filter);
    if s.len() > 0 {
        assert forall|i: int| 0 <= i < s.drop_last().len() implies #[trigger] f(s.drop_last()[i]) by {
            assert(s.drop_last()[i] == s[i]);
        }
        lemma_filter_all(s.drop_last(), f);
        assert(f(s[s.len() - 1]));
        assert(s.drop_last().push(s.last()) == s);
    }
}

/// Drops the tracking parameters from a list of query pairs, keeping the
/// order of the others.
pub fn strip_tracking_params(pairs: Vec<(String, String)>) -> (r: Vec<(String, String)>)
    ensures
        pair_views(r@) == kept_pairs(pair_views(pairs@)),
{
    let ghost pv = pair_views(pairs@);
    let mut out: Vec<(String, String)> = Vec::new();
    let mut rest = pairs;
    let ghost orig = rest@;
    let ghost mut n: int = 0;
    while rest.len() > 0
        invariant
            0 <= n <= orig.len(),
            rest@ == orig.skip(n),
            pv == pair_views(orig),
            pair_views(out@) == kept_pairs(pv.take(n)),
        decreases rest.len(),
    {
        let (k, v) = rest.remove(0);
        proof {
            assert((k, v) == orig[n]);
            assert(pv.take(n + 1) == pv.take(n).push(pv[n]));
            pv.take(n).lemma_filter_push(pv[n], |p: (Seq<char>, Seq<char>)| !is_tracking_param(p.0));
            assert(rest@ == orig.skip(n + 1));
        }
        if !is_tracking_param_name(k.as_str()) {
            let ghost before = out@;
            out.push((k, v));
            assert(pair_views(out@) == pair_views(before).push(pv[n]));
        }
        proof {
            n = n + 1;
        }
    }
    assert(pv.take(n) == pv);
    out
}

/// What cleaning gives: an unparseable text is kept as it is; otherwise the
/// URL loses its tracking parameters (and its query when none is left) and
/// an empty fragment, and is serialized again.
pub open spec fn spec_clean_url(raw: Seq<char>) -> Seq<char> {
    match spec_url_parse(raw) {
        None => raw,
        Some(u) => {
            let kept = kept_pairs(spec_url_query_pairs(u));
            let u2 = if kept.len() == 0 {
                spec_url_without_query(u)
            } else {
                spec_url_with_query_pairs(u, kept)
            };
            if spec_url_fragment(u2) == Some(Seq::<char>::empty()) {
                spec_url_without_fragment(u2)
            } else {
                u2
            }
        },
    }
}

/// Normalizes a URL by stripping its tracking query parameters and an empty
/// fragment; a text that is no absolute URL is returned as it is.
pub fn clean_url(raw_url: &str) -> (r: String)
    ensures
        r@ == spec_clean_url(raw_url@),
        spec_url_parse(raw_url@) is None ==> r@ == raw_url@,
        spec_url_parse(raw_url@) is Some ==> is_url(r@),
        spec_clean_url(r@) == r@,
        spec_url_parse(raw_url@) matches Some(u) ==> spec_url_fragment(r@) == (if spec_url_fragment(u) == Some(
            Seq::<char>::empty(),
        ) {
            None
        } else {
            spec_url_fragment(u)
        }),
        spec_url_parse(raw_url@) matches Some(u) ==> (spec_url_query(r@) is None <==> spec_url_query_pairs(r@).len() == 0),
        spec_url_parse(raw_url@) matches Some(u) ==> spec_url_query_pairs(r@) == spec_url_query_pairs(u).filter(
            |p: (Seq<char>, Seq<char>)| !(p.0 == "utm_source"@ || p.0 == "utm_medium"@ || p.0 == "utm_campaign"@ || p.0 == "utm_term"@ || p.0 == "utm_content"@ || p.0 == "fbclid"@ || p.0 == "gclid"@ || p.0 == "msclkid"@ || p.0 == "ref"@ || p.0 == "_hsenc"@ || p.0 == "mc_cid"@ || p.0 == "mc_eid"@),
        ),
{
    let parsed = match url_parse(raw_url) {
        Some(u) => u,
        None => return String::from_str(raw_url),
    };
    let pairs = url_query_pairs(parsed.as_str());
    let kept = strip_tracking_params(pairs);
    proof {
        lemma_kept_pairs(pair_views(pairs@));
        lemma_tracking_names(pair_views(pairs@));
    }
    let u2 = if kept.len() == 0 {
        url_clear_query(parsed.as_str())
    } else {
        url_set_query_pairs(parsed.as_str(), &kept)
    };
    proof {
        if kept.len() > 0 {
            assert(kept_pairs(pair_views(kept@)) == pair_views(kept@));
            assert(pair_views(kept@).len() > 0);
        }
    }
    let frag = url_fragment(u2.as_str());
    let empty_fragment = match &frag {
        Some(f) => f.as_str().is_empty(),
        None => false,
    };
    proof {
        if let Some(f) = frag {
            if f@.len() == 0 {
                assert(f@ == Seq::<char>::empty());
            }
        }
    }
    if empty_fragment {
        let r = url_clear_fragment(u2.as_str());
        proof {
            if kept.len() > 0 {
                assert(spec_url_with_query_pairs(r@, pair_views(kept@)) == spec_url_without_fragment(spec_url_with_query_pairs(u2@, pair_views(kept@))));
            } else {
                assert(kept_pairs(spec_url_query_pairs(r@)) =~= Seq::<(Seq<char>, Seq<char>)>::empty());
            }
        }
        r
    } else {
        proof {
            if kept.len() == 0 {
                assert(kept_pairs(spec_url_query_pairs(u2@)) =~= Seq::<(Seq<char>, Seq<char>)>::empty());
            }
        }
        u2
    }
}

// ---------------------------------------------------------------------------
// Hosts, canonical forms, relative links
// ---------------------------------------------------------------------------

/// The host of a URL text, or the empty text when it has none or is no URL.
pub open spec fn spec_extract_host(url: Seq<char>) -> Seq<char> {
    match spec_url_parse(url) {
        Some(u) => match spec_url_host(u) {
            Some(h) => h,
            None => Seq::empty(),
        },
        None => Seq::empty(),
    }
}

pub fn extract_host(url: &str) -> (r: String)
    ensures
        r@ == spec_extract_host(url@),
{
    match url_parse(url) {
        Some(u) => match url_host(u.as_str()) {
            Some(h) => h,
            None => String::new(),
        },
        None => String::new(),
    }
}

/// The form under which URLs are compared for duplicates: the serialization,
/// without the trailing `/` of a bare root URL (path `/`, no query).
pub open spec fn spec_normalize_for_dedupe(input: Seq<char>) -> Seq<char> {
    match spec_url_parse(input) {
        Some(u) => {
            let is_root = spec_url_path(u) == "/"@ && spec_url_query(u) is None;
            if is_root && u.len() > 0 && u.last() == '/' {
                u.drop_last()
            } else {
                u
            }
        },
        None => input,
    }
}

pub fn normalize_for_dedupe(input: &str) -> (r: String)
    ensures
        r@ == spec_normalize_for_dedupe(input@),
{
    match url_parse(input) {
        Some(u) => {
            let path = url_path(u.as_str());
            let query = url_query(u.as_str());
            let is_root = str_eq(path.as_str(), "/") && query.is_none();
            let cv = chars_of(u.as_str());
            if is_root && cv.len() > 0 && cv[cv.len() - 1] == '/' {
                let mut out = cv;
                out.pop();
                string_from_chars(&out)
            } else {
                u
            }
        },
        None => String::from_str(input),
    }
}

/// Whether `s` starts with `p`.
pub fn starts_with(s: &str, p: &str) -> (r: bool)
    ensures
        r == (p@.len() <= s@.len() && s@.take(p@.len() as int) == p@),
{
    let sv = chars_of(s);
    let pv = chars_of(p);
    if pv.len() > sv.len() {
        return false;
    }
    let mut i: usize = 0;
    while i < pv.len()
        invariant
            pv.len() <= sv.len(),
            sv@ == s@,
            pv@ == p@,
            i <= pv.len(),
            forall|k: int| 0 <= k < i ==> sv@[k] == pv@[k],
        decreases pv.len() - i,
    {
        if sv[i] != pv[i] {
            assert(s@.take(p@.len() as int)[i as int] != p@[i as int]);
            return false;
        }
        i = i + 1;
    }
    assert(s@.take(p@.len() as int) =~= p@);
    true
}

/// An absolute link for `relative` found on page `base`: a link starting
/// with "http" is kept; otherwise it is joined to the base URL; a link that
/// cannot be joined is kept as it is.
pub open spec fn spec_resolve_url(base: Seq<char>, relative: Seq<char>) -> Seq<char> {
    if 4 <= relative.len() && relative.take(4) == "http"@ {
        relative
    } else {
        match spec_url_parse(base) {
            Some(b) => match spec_url_join(b, relative) {
                Some(j) => j,
                None => relative,
            },
            None => relative,
        }
    }
}

pub fn resolve_url(base: &str, relative: &str) -> (r: String)
    ensures
        r@ == spec_resolve_url(base@, relative@),
{
    proof {
        reveal_strlit("http");
    }
    if starts_with(relative, "http") {
        return String::from_str(relative);
    }
    match url_parse(base) {
        Some(b) => match url_join(b.as_str(), relative) {
            Some(j) => j,
            None => String::from_str(relative),
        },
        None => String::from_str(relative),
    }
}

} // verus!
