//! Resolution of URL strings against a page's URL, and their classification
//! by scheme.

use url::{ParseError, Url};
use vstd::prelude::*;

use crate::text::{chars_equal, chars_of};

verus! {

/// Why a URL string could not be resolved.
#[derive(Debug, Clone, Copy, PartialEq, Eq, Structural)]
pub enum UrlError {
    /// The string is a relative reference and there was nothing to resolve it against.
    RelativeWithoutBase,
    /// The string is not a URL.
    Invalid,
}

/// An absolute URL, held as its serialisation and its scheme.
#[derive(Debug, Clone, PartialEq, Eq)]
pub struct AbsoluteUrl {
    href: String,
    scheme: String,
}

impl View for AbsoluteUrl {
    type V = (Seq<char>, Seq<char>);

    closed spec fn view(&self) -> (Seq<char>, Seq<char>) {
        (self.href@, self.scheme@)
    }
}

impl AbsoluteUrl {
    /// The serialisation of the URL.
    pub fn as_str(&self) -> (r: &str)
        ensures
            r@ == self@.0,
    {
        self.href.as_str()
    }

    /// The scheme of the URL, lower case, without its `:`.
    pub fn scheme(&self) -> (r: &str)
        ensures
            r@ == self@.1,
    {
        self.scheme.as_str()
    }
}

/// A resolution outcome, with the URL seen as its serialisation and scheme.
pub open spec fn url_result(r: Result<AbsoluteUrl, UrlError>) -> Result<(Seq<char>, Seq<char>), UrlError> {
    match r {
        Ok(u) => Ok(u@),
        Err(e) => Err(e),
    }
}

/// What parsing `s` as an absolute URL yields: its serialisation and scheme,
/// or why it failed.
pub uninterp spec fn url_parse(s: Seq<char>) -> Result<(Seq<char>, Seq<char>), UrlError>;

/// What joining the reference `input` onto the URL serialised as `base` yields.
pub uninterp spec fn url_join(base: Seq<char>, input: Seq<char>) -> Result<(Seq<char>, Seq<char>), UrlError>;

/// Relies on `url::Url::parse`, read back through `Url::as_str` and
/// `Url::scheme`; `ParseError::RelativeUrlWithoutBase` is told apart from
/// the other parse errors.
#[verifier::external_body]
fn parse_absolute(s: &str) -> (r: Result<AbsoluteUrl, UrlError>)
    ensures
        url_result(r) == url_parse(s@),
{
    match Url::parse(s) {
        Ok(u) => Ok(AbsoluteUrl { href: u.as_str().to_owned(), scheme: u.scheme().to_owned() }),
        Err(ParseError::RelativeUrlWithoutBase) => Err(UrlError::RelativeWithoutBase),
        Err(_) => Err(UrlError::Invalid),
    }
}

/// Relies on `url::Url::join`, applied to the URL that `url::Url::parse`
/// makes again of the serialisation of `base`.
#[verifier::external_body]
fn join_onto(base: &AbsoluteUrl, input: &str) -> (r: Result<AbsoluteUrl, UrlError>)
    ensures
        url_result(r) == url_join(base@.0, input@),
{
    let base = match Url::parse(&base.href) {
        Ok(b) => b,
        Err(_) => return Err(UrlError::Invalid),
    };
    match base.join(input) {
        Ok(u) => Ok(AbsoluteUrl { href: u.as_str().to_owned(), scheme: u.scheme().to_owned() }),
        Err(ParseError::RelativeUrlWithoutBase) => Err(UrlError::RelativeWithoutBase),
        Err(_) => Err(UrlError::Invalid),
    }
}

/// The absolute URL that `raw` stands for on the page at `base`: `raw` itself
/// where it is absolute, `raw` joined onto `base` where it is relative.
pub open spec fn resolved(raw: Seq<char>, base: Seq<char>) -> Result<(Seq<char>, Seq<char>), UrlError> {
    match url_parse(raw) {
        Ok(u) => Ok(u),
        Err(UrlError::RelativeWithoutBase) => match url_parse(base) {
            Ok(b) => url_join(b.0, raw),
            Err(e) => Err(e),
        },
        Err(e) => Err(e),
    }
}

/// Resolves `url` against the page URL `base_url`.
pub fn parse_to_url(url: &str, base_url: &str) -> (r: Result<AbsoluteUrl, UrlError>)
    ensures
        url_result(r) == resolved(url@, base_url@),
{
    match parse_absolute(url) {
        Ok(u) => Ok(u),
        Err(UrlError::RelativeWithoutBase) => match parse_absolute(base_url) {
            Ok(base) => join_onto(&base, url),
            Err(e) => Err(e),
        },
        Err(e) => Err(e),
    }
}

/// A font URL, by the way its bytes are reached.
#[derive(Debug, Clone, PartialEq, Eq)]
pub enum FontUrl {
    /// Fetched over HTTP(S).
    Http(AbsoluteUrl),
    /// Held in the URL itself.
    Data(AbsoluteUrl),
}

/// A font URL seen as its kind and its serialisation.
pub enum FontUrlView {
    Http(Seq<char>),
    Data(Seq<char>),
}

impl View for FontUrl {
    type V = FontUrlView;

    open spec fn view(&self) -> FontUrlView {
        match self {
            FontUrl::Http(u) => FontUrlView::Http(u@.0),
            FontUrl::Data(u) => FontUrlView::Data(u@.0),
        }
    }
}

impl FontUrl {
    /// The URL, whatever its kind.
    pub fn url(&self) -> (r: &AbsoluteUrl)
        ensures
            match *self {
                FontUrl::Http(u) => *r == u,
                FontUrl::Data(u) => *r == u,
            },
    {
        match self {
            FontUrl::Http(u) => u,
            FontUrl::Data(u) => u,
        }
    }
}

pub open spec fn http_scheme() -> Seq<char> {
    seq!['h', 't', 't', 'p']
}

pub open spec fn https_scheme() -> Seq<char> {
    seq!['h', 't', 't', 'p', 's']
}

pub open spec fn data_scheme() -> Seq<char> {
    seq!['d', 'a', 't', 'a']
}

/// The font URL that the absolute URL `u` (serialisation, scheme) gives:
/// `Http` for the schemes `http` and `https`, `Data` for `data`, none for
/// any other scheme.
pub open spec fn classified(u: (Seq<char>, Seq<char>)) -> Option<FontUrlView> {
    if u.1 == http_scheme() || u.1 == https_scheme() {
        Some(FontUrlView::Http(u.0))
    } else if u.1 == data_scheme() {
        Some(FontUrlView::Data(u.0))
    } else {
        None
    }
}

/// The font URL, if any, that the URL string `raw` on the page at `base` gives.
pub open spec fn font_url_of(raw: Seq<char>, base: Seq<char>) -> Option<FontUrlView> {
    match resolved(raw, base) {
        Ok(u) => classified(u),
        Err(_) => None,
    }
}

/// The font URLs that the URL strings `urls` on the page at `base` give, in
/// order; those that do not resolve, or have another scheme, give none.
pub open spec fn font_urls_of(urls: Seq<Seq<char>>, base: Seq<char>) -> Seq<FontUrlView> {
    urls.filter_map(|u: Seq<char>| font_url_of(u, base))
}

/// Classification by scheme: a URL string that resolves to an `http` or
/// `https` URL gives `Http`, one that resolves to a `data` URL gives `Data`,
/// and one with any other scheme is left out of the font URLs, without error.
pub proof fn lemma_classification(raw: Seq<char>, base: Seq<char>)
    requires
        resolved(raw, base) is Ok,
    ensures
        ({
            let u = resolved(raw, base)->Ok_0;
            &&& (u.1 == http_scheme() || u.1 == https_scheme()) ==> font_urls_of(seq![raw], base) == seq![FontUrlView::Http(u.0)]
            &&& u.1 == data_scheme() ==> font_urls_of(seq![raw], base) == seq![FontUrlView::Data(u.0)]
            &&& !(u.1 == http_scheme() || u.1 == https_scheme() || u.1 == data_scheme()) ==> font_urls_of(seq![raw], base).len() == 0
        }),
{
    assert(seq![raw].drop_last() =~= Seq::<Seq<char>>::empty());
    assert(seq![raw].last() == raw);
    assert(font_urls_of(Seq::<Seq<char>>::empty(), base) =~= Seq::<FontUrlView>::empty());
    assert(font_urls_of(seq![raw], base) == font_urls_of(Seq::<Seq<char>>::empty(), base) + match font_url_of(raw, base) {
        Some(f) => seq![f],
        None => Seq::<FontUrlView>::empty(),
    }) by {
        assert(seq![raw].drop_last() =~= Seq::<Seq<char>>::empty());
    }
    assert(http_scheme() != data_scheme()) by {
        assert(http_scheme()[0] != data_scheme()[0]);
    }
    assert(https_scheme() != data_scheme()) by {
        assert(https_scheme()[0] != data_scheme()[0]);
    }
}

/// Skipping on error: a URL string that does not resolve adds nothing to the
/// font URLs of the strings before it, and ends nothing.
pub proof fn lemma_unresolvable_is_skipped(urls: Seq<Seq<char>>, bad: Seq<char>, more: Seq<Seq<char>>, base: Seq<char>)
    requires
        resolved(bad, base) is Err,
    ensures
        font_urls_of(urls.push(bad) + more, base) == font_urls_of(urls + more, base),
    decreases more.len(),
{
    if more.len() == 0 {
        assert(urls.push(bad) + more =~= urls.push(bad));
        assert(urls + more =~= urls);
        assert(urls.push(bad).drop_last() =~= urls);
    } else {
        lemma_unresolvable_is_skipped(urls, bad, more.drop_last(), base);
        assert((urls.push(bad) + more).drop_last() =~= urls.push(bad) + more.drop_last());
        assert((urls + more).drop_last() =~= urls + more.drop_last());
        assert((urls.push(bad) + more).last() == more.last());
        assert((urls + more).last() == more.last());
    }
}

/// The views of a list of font URLs.
pub open spec fn font_urls_view(v: Seq<FontUrl>) -> Seq<FontUrlView> {
    v.map_values(|f: FontUrl| f@)
}

/// Classifies the absolute URL `url` by its scheme.
pub fn classify(url: AbsoluteUrl) -> (r: Option<FontUrl>)
    ensures
        match r {
            Some(f) => classified(url@) == Some(f@) && (f == FontUrl::Http(url) || f == FontUrl::Data(url)),
            None => classified(url@) is None,
        },
{
    let scheme = chars_of(url.scheme());
    let http = vec!['h', 't', 't', 'p'];
    let https = vec!['h', 't', 't', 'p', 's'];
    let data = vec!['d', 'a', 't', 'a'];
    assert(http@ =~= http_scheme());
    assert(https@ =~= https_scheme());
    assert(data@ =~= data_scheme());
    if chars_equal(scheme.as_slice(), http.as_slice()) || chars_equal(scheme.as_slice(), https.as_slice()) {
        Some(FontUrl::Http(url))
    } else if chars_equal(scheme.as_slice(), data.as_slice()) {
        Some(FontUrl::Data(url))
    } else {
        None
    }
}

/// Resolves each of `urls` against `base_url` and keeps those that classify
/// as font URLs, in order; the others are skipped.
pub fn parse_to_font_urls(urls: Vec<String>, base_url: &str) -> (r: Vec<FontUrl>)
    ensures
        font_urls_view(r@) == font_urls_of(urls@.map_values(|s: String| s@), base_url@),
{
    let ghost raw = urls@.map_values(|s: String| s@);
    let mut out: Vec<FontUrl> = Vec::new();
    let mut i: usize = 0;
    while i < urls.len()
        invariant
            i <= urls@.len(),
            raw == urls@.map_values(|s: String| s@),
            font_urls_view(out@) == font_urls_of(raw.take(i as int), base_url@),
        decreases urls@.len() - i,
    {
        proof {
            assert(raw.take(i as int + 1).drop_last() =~= raw.take(i as int));
            assert(raw.take(i as int + 1).last() == urls@[i as int]@);
        }
        let ghost before = out@;
        match parse_to_url(urls[i].as_str(), base_url) {
            Ok(u) => match classify(u) {
                Some(f) => {
                    out.push(f);
                    assert(font_urls_view(out@) =~= font_urls_view(before).push(f@));
                },
                None => {},
            },
            Err(_) => {},
        }
        i = i + 1;
    }
    assert(raw.take(urls@.len() as int) =~= raw);
    out
}

} // verus!
