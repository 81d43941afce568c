//! Remote resource addresses.
//!
//! Parsing and reference resolution are done by the `url` crate. What the
//! library reads of a parsed URL (its serialization, its path and its query)
//! is held as plain text in `ResourceUrl`.

use vstd::prelude::*;
use crate::error::{ErrorView, MirrorError};
use crate::text::{
    char_lower, chars_of, ends_with, lowercase, matches_at, slice_of, split, split_text, texts,
};

verus! {

/// `url::ParseError`, the reason why a text is no URL. Nothing is read of
/// it.
#[verifier::external_type_specification]
#[verifier::external_body]
pub struct ExParseError(::url::ParseError);

/// A parsed absolute URL.
pub struct ResourceUrl {
    /// The whole URL in its normal form. Two URLs are the same resource
    /// exactly when their texts are equal.
    pub text: String,
    /// The path component, as it stands in `text`.
    pub path: String,
    /// The query component without its `?`, if the URL has one.
    pub query: Option<String>,
}

/// The model of a `ResourceUrl`.
pub struct UrlParts {
    pub text: Seq<char>,
    pub path: Seq<char>,
    pub query: Option<Seq<char>>,
}

pub open spec fn option_text(s: Option<String>) -> Option<Seq<char>> {
    match s {
        Some(t) => Some(t@),
        None => None,
    }
}

impl View for ResourceUrl {
    type V = UrlParts;

    open spec fn view(&self) -> UrlParts {
        UrlParts { text: self.text@, path: self.path@, query: option_text(self.query) }
    }
}

/// What `url::Url::parse` makes of `input`: the parts of the parsed URL, or
/// `None` where it reports an error.
pub uninterp spec fn url_parse(input: Seq<char>) -> Option<UrlParts>;

/// What `url::Url::join` makes of `reference` against the URL written
/// `base`: the parts of the resolved URL, or `None` where `base` does not
/// parse or the resolution reports an error.
pub uninterp spec fn url_join(base: Seq<char>, reference: Seq<char>) -> Option<UrlParts>;

/// Calls `url::Url::parse` and copies out the serialization, the path and
/// the query of the result. Nothing is claimed of these beyond their name
/// `url_parse`: the same input always gives the same parts.
#[verifier::external_body]
fn crate_parse(input: &str) -> (r: Result<ResourceUrl, ::url::ParseError>)
    ensures
        match r {
            Ok(u) => url_parse(input@) == Some(u@),
            Err(_) => url_parse(input@).is_none(),
        },
{
    let u = ::url::Url::parse(input)?;
    Ok(
        ResourceUrl {
            text: u.as_str().to_owned(),
            path: u.path().to_owned(),
            query: u.query().map(|q| q.to_owned()),
        },
    )
}

/// Calls `url::Url::join` on the URL that `base` is the serialization of,
/// and copies out the serialization, the path and the query of the result.
/// Nothing is claimed of these beyond their name `url_join`.
#[verifier::external_body]
fn crate_join(base: &str, reference: &str) -> (r: Result<ResourceUrl, ::url::ParseError>)
    ensures
        match r {
            Ok(u) => url_join(base@, reference@) == Some(u@),
            Err(_) => url_join(base@, reference@).is_none(),
        },
{
    let u = ::url::Url::parse(base)?.join(reference)?;
    Ok(
        ResourceUrl {
            text: u.as_str().to_owned(),
            path: u.path().to_owned(),
            query: u.query().map(|q| q.to_owned()),
        },
    )
}

/// The URL that `reference` leads to from `base`, or the error that it
/// leads to none.
pub open spec fn resolved(base: UrlParts, reference: Seq<char>) -> Result<UrlParts, ErrorView> {
    match url_join(base.text, reference) {
        Some(u) => Ok(u),
        None => Err(ErrorView::Unresolvable { reference, base: base.text }),
    }
}

pub open spec fn result_view(r: Result<ResourceUrl, MirrorError>) -> Result<UrlParts, ErrorView> {
    match r {
        Ok(u) => Ok(u@),
        Err(e) => Err(e@),
    }
}

pub open spec fn option_url(r: Option<ResourceUrl>) -> Option<UrlParts> {
    match r {
        Some(u) => Some(u@),
        None => None,
    }
}

impl ResourceUrl {
    /// Parses an absolute URL.
    pub fn parse(input: &str) -> (r: Option<ResourceUrl>)
        ensures
            option_url(r) == url_parse(input@),
    {
        match crate_parse(input) {
            Ok(u) => Some(u),
            Err(_) => None,
        }
    }

    /// Resolves `reference` against this URL; a reference that does not
    /// resolve is an error.
    pub fn resolve(&self, reference: &str) -> (r: Result<ResourceUrl, MirrorError>)
        ensures
            result_view(r) == resolved(self@, reference@),
    {
        match crate_join(self.text.as_str(), reference) {
            Ok(u) => Ok(u),
            Err(_) => Err(
                MirrorError::Unresolvable {
                    reference: reference.to_owned(),
                    base: self.text.clone(),
                },
            ),
        }
    }

    pub fn clone(&self) -> (c: ResourceUrl)
        ensures
            c@ == self@,
    {
        ResourceUrl {
            text: self.text.clone(),
            path: self.path.clone(),
            query: match &self.query {
                Some(q) => Some(q.clone()),
                None => None,
            },
        }
    }
}

// ---------------------------------------------------------------------
// Reading a URL path
// ---------------------------------------------------------------------

/// `s` without the slashes at its start.
pub open spec fn strip_slashes(s: Seq<char>) -> Seq<char>
    decreases s.len(),
{
    if s.len() > 0 && s[0] == '/' {
        strip_slashes(s.skip(1))
    } else {
        s
    }
}

/// The segments of a URL path: the path without its leading slashes, cut
/// at every `/`.
pub open spec fn path_segments(path: Seq<char>) -> Seq<Seq<char>> {
    split(strip_slashes(path), '/')
}

proof fn lemma_strip_slashes(s: Seq<char>, n: int)
    requires
        0 <= n <= s.len(),
        forall|j: int| 0 <= j < n ==> s[j] == '/',
        n == s.len() || s[n] != '/',
    ensures
        strip_slashes(s) == s.skip(n),
    decreases n,
{
    if n > 0 {
        let t = s.skip(1);
        assert forall|j: int| 0 <= j < n - 1 implies t[j] == '/' by {
            assert(t[j] == s[j + 1]);
        }
        lemma_strip_slashes(t, n - 1);
        assert(t.skip(n - 1) == s.skip(n));
    } else {
        assert(s.skip(0) == s);
    }
}

/// The path segments of `path`, by which the local layout is anchored when
/// `path` is that of the first manifest.
pub fn path_components(path: &str) -> (parts: Vec<String>)
    ensures
        texts(parts@) == path_segments(path@),
{
    let v = chars_of(path);
    let mut n: usize = 0;
    while n < v.len() && v[n] == '/'
        invariant
            n <= v.len(),
            forall|j: int| 0 <= j < n ==> v@[j] == '/',
        decreases v.len() - n,
    {
        n += 1;
    }
    proof {
        lemma_strip_slashes(v@, n as int);
    }
    let rest = slice_of(v.as_slice(), n, v.len());
    split_text(rest.as_slice(), '/')
}

/// The suffix by which a URL path is taken for a playlist.
pub open spec fn playlist_suffix() -> Seq<char> {
    seq!['.', 'm', '3', 'u', '8']
}

/// Whether a URL path names a playlist: it ends in `.m3u8`, in any case of
/// letters.
pub open spec fn is_playlist_path(path: Seq<char>) -> bool {
    ends_with(lowercase(path), playlist_suffix())
}

pub fn names_playlist(path: &str) -> (b: bool)
    ensures
        b == is_playlist_path(path@),
{
    let v = chars_of(path);
    let mut low: Vec<char> = Vec::new();
    let mut i: usize = 0;
    while i < v.len()
        invariant
            i <= v.len(),
            low@ == lowercase(v@).take(i as int),
        decreases v.len() - i,
    {
        low.push(char_lower(v[i]));
        i += 1;
    }
    assert(low@ == lowercase(v@));
    let suffix: Vec<char> = vec!['.', 'm', '3', 'u', '8'];
    assert(suffix@ == playlist_suffix());
    if low.len() < suffix.len() {
        return false;
    }
    matches_at(low.as_slice(), suffix.as_slice(), low.len() - suffix.len())
}

// ---------------------------------------------------------------------
// The kind of the first manifest
// ---------------------------------------------------------------------

/// The two kinds of manifest that can be mirrored.
#[derive(Clone, Copy, PartialEq, Eq, Debug)]
pub enum Dialect {
    /// An HLS playlist.
    Hls,
    /// A DASH manifest.
    Dash,
}

/// The extension of a URL path in small letters: what follows its last
/// `.`, or all of it where it has none.
pub open spec fn extension_of(path: Seq<char>) -> Seq<char> {
    lowercase(split(path, '.').last())
}

/// The kind of manifest that an extension names.
pub open spec fn dialect_of(extension: Seq<char>) -> Option<Dialect> {
    if extension == seq!['m', '3', 'u', '8'] {
        Some(Dialect::Hls)
    } else if extension == seq!['m', 'p', 'd'] {
        Some(Dialect::Dash)
    } else {
        None
    }
}

/// The extension of a URL path, in small letters.
pub fn path_extension(path: &str) -> (ext: String)
    ensures
        ext@ == extension_of(path@),
{
    let v = chars_of(path);
    let pieces = split_text(v.as_slice(), '.');
    proof {
        crate::text::lemma_split_nonempty(v@, '.');
    }
    let last = chars_of(pieces[pieces.len() - 1].as_str());
    let mut low: Vec<char> = Vec::new();
    let mut i: usize = 0;
    while i < last.len()
        invariant
            i <= last.len(),
            low@ == lowercase(last@).take(i as int),
        decreases last.len() - i,
    {
        low.push(char_lower(last[i]));
        i += 1;
    }
    assert(low@ == lowercase(last@));
    crate::text::string_of(low.as_slice())
}

/// The kind of manifest that the extension `extension` names: `m3u8` a
/// playlist, `mpd` a DASH manifest, anything else none.
pub fn select_dialect(extension: &str) -> (d: Option<Dialect>)
    ensures
        d == dialect_of(extension@),
{
    let v = chars_of(extension);
    let hls: Vec<char> = vec!['m', '3', 'u', '8'];
    let dash: Vec<char> = vec!['m', 'p', 'd'];
    assert(hls@ == seq!['m', '3', 'u', '8']);
    assert(dash@ == seq!['m', 'p', 'd']);
    if crate::text::same_text(v.as_slice(), hls.as_slice()) {
        Some(Dialect::Hls)
    } else if crate::text::same_text(v.as_slice(), dash.as_slice()) {
        Some(Dialect::Dash)
    } else {
        None
    }
}

} // verus!
