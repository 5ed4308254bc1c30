//! Addresses: how they are read, and how they are written.

use vstd::prelude::*;

use crate::text::{begins_with, text_opt, texts};
use vstd::utf8::encode_utf8;

verus! {

/// An address, taken apart.
#[derive(Debug, PartialEq, Eq)]
pub struct UrlParts {
    /// The address itself, in its normal form.
    pub text: String,
    pub scheme: String,
    pub host: Option<String>,
    pub path: String,
    /// The path between its slashes, where it has any.
    pub segments: Option<Vec<String>>,
    /// The query, decoded.
    pub pairs: Vec<(String, String)>,
}

/// The content of an address, taken apart.
#[verifier::ext_equal]
pub struct UrlView {
    pub text: Seq<char>,
    pub scheme: Seq<char>,
    pub host: Option<Seq<char>>,
    pub path: Seq<char>,
    pub segments: Option<Seq<Seq<char>>>,
    pub pairs: Seq<(Seq<char>, Seq<char>)>,
}

/// The texts of pairs.
pub open spec fn pair_texts(pairs: Seq<(String, String)>) -> Seq<(Seq<char>, Seq<char>)> {
    pairs.map_values(|p: (String, String)| (p.0@, p.1@))
}

impl View for UrlParts {
    type V = UrlView;

    open spec fn view(&self) -> UrlView {
        UrlView {
            text: self.text@,
            scheme: self.scheme@,
            host: match self.host {
                Some(h) => Some(h@),
                None => None,
            },
            path: self.path@,
            segments: match self.segments {
                Some(s) => Some(texts(s@)),
                None => None,
            },
            pairs: pair_texts(self.pairs@),
        }
    }
}

/// A scheme of lower-case letters that has no rules of its own.
pub open spec fn plain_scheme(s: Seq<char>) -> bool {
    &&& s.len() > 0
    &&& forall|i: int| 0 <= i < s.len() ==> 'a' <= #[trigger] s[i] <= 'z'
    &&& s != "http"@
    &&& s != "https"@
    &&& s != "ws"@
    &&& s != "wss"@
    &&& s != "ftp"@
    &&& s != "file"@
}

/// The shortest address of a scheme that has a path.
pub open spec fn bare_base(scheme: Seq<char>) -> Seq<char> {
    scheme + ":///"@
}

/// An address without a host, its path behind three slashes. Those of files are left out:
/// drive letters have rules of their own.
pub open spec fn hostless(u: UrlView) -> bool {
    &&& begins_with(u.text, bare_base(u.scheme))
    &&& u.scheme != "file"@
    &&& u.segments is Some
}

/// There is an address, and it has no host.
pub open spec fn is_hostless(u: Option<UrlView>) -> bool {
    u is Some && hostless(u->0)
}

/// What `url::Url::parse` makes of a text.
pub uninterp spec fn url_parsed(text: Seq<char>) -> Option<UrlView>;

/// `url::Url::parse`, and the accessors of what it gives: the address in its normal
/// form, its scheme, host, path, path segments and decoded query. They depend on the text
/// alone. A path is at most twelve times as long as the text: four bytes make a character,
/// and three characters an encoded byte. The shortest address of a plain scheme is read as
/// it stands, with one empty segment and no query.
#[verifier::external_body]
pub(crate) fn read_url(text: &str) -> (r: Option<UrlParts>)
    ensures
        match r {
            Some(u) => url_parsed(text@) == Some(u@) && u.path@.len() <= 12 * text@.len(),
            None => url_parsed(text@) is None,
        },
        forall|scheme: Seq<char>|
            plain_scheme(scheme) && text@ == #[trigger] bare_base(scheme) ==> {
                &&& r is Some
                &&& r->0.text@ == text@
                &&& r->0.scheme@ == scheme
                &&& r->0@.segments == Some(seq![Seq::<char>::empty()])
                &&& r->0@.pairs.len() == 0
            },
{
    let url = url::Url::parse(text).ok()?;
    Some(UrlParts {
        text: url.as_str().to_owned(),
        scheme: url.scheme().to_owned(),
        host: url.host_str().map(str::to_owned),
        path: url.path().to_owned(),
        segments: url.path_segments().map(|parts| parts.map(str::to_owned).collect()),
        pairs: url.query_pairs().map(|(k, v)| (k.into_owned(), v.into_owned())).collect(),
    })
}

/// What `percent_encoding` makes of a text when it decodes it, as far as it is UTF-8.
pub uninterp spec fn percent_plain(text: Seq<char>) -> Seq<char>;

/// `percent_encoding::percent_decode_str`, read as UTF-8 with replacements. Nothing is
/// claimed but that the result depends on the text alone.
#[verifier::external_body]
pub(crate) fn percent_decoded(text: &str) -> (r: String)
    ensures
        r@ == percent_plain(text@),
{
    percent_encoding::percent_decode_str(text).decode_utf8_lossy().into_owned()
}

/// The longest text that is written into an address here: encoded, it still fits the
/// four-byte positions that addresses keep.
pub const LINK_LIMIT: usize = 0x0800_0000;

/// The longest text that is encoded here and then written into an address: encoded, it is
/// still no longer than that allows.
pub const TEXT_LIMIT: usize = 0x0080_0000;

/// The characters of texts, and one for each of them.
pub open spec fn total_len(parts: Seq<Seq<char>>) -> int
    decreases parts.len(),
{
    if parts.len() == 0 {
        0
    } else {
        total_len(parts.drop_last()) + parts.last().len() + 1
    }
}

/// A path segment that an address gives back as it was: no dot segment, and none of the
/// characters that addresses drop.
pub open spec fn plain_segment(s: Seq<char>) -> bool {
    &&& s != "."@
    &&& s != ".."@
    &&& !s.contains('\t')
    &&& !s.contains('\n')
    &&& !s.contains('\r')
}

/// Path segments that an address gives back as they were.
pub open spec fn plain_segments(parts: Seq<Seq<char>>) -> bool {
    &&& parts.len() > 0
    &&& parts.len() > 1 ==> parts[0].len() > 0
    &&& forall|i: int| 0 <= i < parts.len() ==> plain_segment(#[trigger] parts[i])
}

/// Path segments decode to these texts.
pub open spec fn decode_to(segments: Option<Seq<Seq<char>>>, parts: Seq<Seq<char>>) -> bool {
    &&& segments is Some
    &&& segments->0.len() == parts.len()
    &&& forall|i: int| 0 <= i < parts.len() ==> percent_plain(#[trigger] segments->0[i]) == parts[i]
}

/// An address with another path: its scheme and its query stay, and its segments decode to
/// these texts.
pub open spec fn path_replaced(was: UrlView, parts: Seq<Seq<char>>, is: UrlView) -> bool {
    &&& hostless(is)
    &&& is.scheme == was.scheme
    &&& is.pairs == was.pairs
    &&& decode_to(is.segments, parts)
}

/// The address that `url` makes of one, and of these path segments in it.
pub uninterp spec fn url_with_segments(text: Seq<char>, parts: Seq<Seq<char>>) -> Option<Seq<char>>;

/// `url::Url::parse`, and `path_segments_mut` to clear the path and fill it with segments.
/// The result depends on the text and the segments alone. Of an address without a host
/// there is always one, and it can be read again. It is at most so much longer than the
/// address was as the segments are encoded. Where the segments are no dot segments and
/// hold no tab or line break, the first of them not empty unless it is the only one, the
/// result is in its normal form, its scheme and query are those of the address, and its
/// segments are read back by `percent_encoding` as they were. The length is bounded: `url`
/// panics on addresses of four gigabytes.
#[verifier::external_body]
pub(crate) fn put_segments(text: &str, parts: &Vec<String>) -> (r: Option<String>)
    requires
        text@.len() + total_len(texts(parts@)) <= LINK_LIMIT,
    ensures
        text_opt(r) == url_with_segments(text@, texts(parts@)),
        is_hostless(url_parsed(text@)) ==> r is Some && url_parsed(r->0@) is Some && r->0@.len()
            <= url_parsed(text@)->0.text.len() + 12 * total_len(texts(parts@)),
        is_hostless(url_parsed(text@)) && plain_segments(texts(parts@)) ==> url_parsed(r->0@)->0.text
            == r->0@ && path_replaced(url_parsed(text@)->0, texts(parts@), url_parsed(r->0@)->0),
{
    let mut url = url::Url::parse(text).ok()?;
    url.path_segments_mut().ok()?.clear().extend(parts);
    Some(url.into())
}

// ---- query encoding ----

/// An upper-case hexadecimal digit.
pub open spec fn upper_digit(d: int) -> char {
    if d < 10 {
        (d + 48) as char
    } else {
        (d + 55) as char
    }
}

/// A byte behind a percent sign.
pub open spec fn percent_byte(b: u8) -> Seq<char> {
    seq!['%', upper_digit(b as int / 16), upper_digit(b as int % 16)]
}

/// An ASCII letter or digit.
pub open spec fn alnum_byte(b: u8) -> bool {
    (48 <= b <= 57) || (65 <= b <= 90) || (97 <= b <= 122)
}

/// Bytes with everything but ASCII letters and digits behind percent signs.
pub open spec fn percent_text(bytes: Seq<u8>) -> Seq<char>
    decreases bytes.len(),
{
    if bytes.len() == 0 {
        Seq::empty()
    } else {
        percent_text(bytes.drop_last()) + (if alnum_byte(bytes.last()) {
            seq![bytes.last() as char]
        } else {
            percent_byte(bytes.last())
        })
    }
}

/// `percent_encoding::utf8_percent_encode` with the set `NON_ALPHANUMERIC`: every byte of
/// the text's UTF-8 that is no ASCII letter or digit stands behind a percent sign.
#[verifier::external_body]
pub(crate) fn percent_encoded(text: &str) -> (r: String)
    ensures
        r@ == percent_text(encode_utf8(text@)),
{
    percent_encoding::utf8_percent_encode(text, percent_encoding::NON_ALPHANUMERIC).to_string()
}

/// Bytes as a form field: a space is a plus sign; ASCII letters, digits and `*-._` stand
/// as they are; the rest stands behind percent signs.
pub open spec fn form_text(bytes: Seq<u8>) -> Seq<char>
    decreases bytes.len(),
{
    if bytes.len() == 0 {
        Seq::empty()
    } else {
        let b = bytes.last();
        form_text(bytes.drop_last()) + (if b == 32 {
            seq!['+']
        } else if alnum_byte(b) || b == 42 || b == 45 || b == 46 || b == 95 {
            seq![b as char]
        } else {
            percent_byte(b)
        })
    }
}

/// Pairs as a form.
pub open spec fn form_of(pairs: Seq<(Seq<char>, Seq<char>)>) -> Seq<char>
    decreases pairs.len(),
{
    if pairs.len() == 0 {
        Seq::empty()
    } else {
        let before = form_of(pairs.drop_last());
        let own = form_text(encode_utf8(pairs.last().0)) + "="@ + form_text(
            encode_utf8(pairs.last().1),
        );
        if before.len() > 0 {
            before + "&"@ + own
        } else {
            own
        }
    }
}

/// `url::form_urlencoded::Serializer`, over all the pairs: names and values in form
/// encoding, an equals sign between them and an ampersand between the pairs.
#[verifier::external_body]
pub(crate) fn form_encoded(pairs: &Vec<(String, String)>) -> (r: String)
    ensures
        r@ == form_of(pair_texts(pairs@)),
{
    url::form_urlencoded::Serializer::new(String::new()).extend_pairs(pairs).finish()
}

/// All the characters of pairs, and two for each.
pub open spec fn pairs_len(pairs: Seq<(Seq<char>, Seq<char>)>) -> int
    decreases pairs.len(),
{
    if pairs.len() == 0 {
        0
    } else {
        pairs_len(pairs.drop_last()) + pairs.last().0.len() + pairs.last().1.len() + 2
    }
}

/// An address with more in its query: its scheme and its segments stay, and the pairs stand
/// behind those that were there.
pub open spec fn query_extended(was: UrlView, pairs: Seq<(Seq<char>, Seq<char>)>, is: UrlView) -> bool {
    &&& is.scheme == was.scheme
    &&& is.segments == was.segments
    &&& is.pairs == was.pairs + pairs
}

/// The address that `url` makes of one, and of query pairs behind it.
pub uninterp spec fn url_with_pairs(text: Seq<char>, pairs: Seq<(Seq<char>, Seq<char>)>) -> Option<Seq<char>>;

/// `url::Url::parse`, and `query_pairs_mut` to append pairs. There is a result exactly
/// where the text is an address, and it depends on the text and the pairs alone. An address
/// without a host keeps its scheme and its segments, and its query is read again as it was
/// with the pairs behind it. The length is bounded: `url` panics on addresses of four
/// gigabytes.
#[verifier::external_body]
pub(crate) fn append_pairs(text: &str, pairs: &Vec<(String, String)>) -> (r: Option<String>)
    requires
        text@.len() + pairs_len(pair_texts(pairs@)) <= LINK_LIMIT,
    ensures
        text_opt(r) == url_with_pairs(text@, pair_texts(pairs@)),
        r is Some <==> url_parsed(text@) is Some,
        is_hostless(url_parsed(text@)) ==> url_parsed(r->0@) is Some && query_extended(
            url_parsed(text@)->0,
            pair_texts(pairs@),
            url_parsed(r->0@)->0,
        ),
{
    let mut url = url::Url::parse(text).ok()?;
    url.query_pairs_mut().extend_pairs(pairs);
    Some(url.into())
}

// ---- bases ----

/// The address that `url` makes of one and another path in it.
pub uninterp spec fn url_with_path(text: Seq<char>, path: Seq<char>) -> Option<Seq<char>>;

/// `url::Url::parse`, and `set_path`. There is a result exactly where the text is an
/// address, and it depends on the text and the path alone. The length is bounded: `url`
/// panics on addresses of four gigabytes.
#[verifier::external_body]
pub(crate) fn put_path(text: &str, path: &str) -> (r: Option<String>)
    requires
        text@.len() + path@.len() <= LINK_LIMIT,
    ensures
        text_opt(r) == url_with_path(text@, path@),
        r is Some <==> url_parsed(text@) is Some,
{
    let mut url = url::Url::parse(text).ok()?;
    url.set_path(path);
    Some(url.into())
}

/// The address that `url` makes of a base and a reference relative to it.
pub uninterp spec fn url_joined(base: Seq<char>, reference: Seq<char>) -> Option<Seq<char>>;

/// `url::Url::parse` for the base, and `join` for the reference. Nothing is claimed but
/// that the result depends on the two alone.
#[verifier::external_body]
pub(crate) fn join_url(base: &str, reference: &str) -> (r: Option<String>)
    ensures
        text_opt(r) == url_joined(base@, reference@),
{
    url::Url::parse(base).ok()?.join(reference).ok().map(String::from)
}

/// A server's address as a base for others: its path ends with a slash, or joining would
/// drop the path's last part. There is none where the text is no address.
pub open spec fn base_text(text: Seq<char>, parsed: Option<UrlView>) -> Option<Seq<char>> {
    match parsed {
        None => None,
        Some(u) => if crate::text::finishes_with(u.path, "/"@) {
            Some(u.text)
        } else {
            url_with_path(text, u.path + "/"@)
        },
    }
}

/// Makes a server's address a base for others.
pub fn base_url(text: &str) -> (r: Option<String>)
    requires
        text@.len() <= TEXT_LIMIT,
    ensures
        text_opt(r) == base_text(text@, url_parsed(text@)),
{
    match read_url(text) {
        None => None,
        Some(u) => {
            if crate::text::ends_with(u.path.as_str(), "/") {
                return Some(u.text);
            }
            proof {
                reveal_strlit("/");
            }
            let path = crate::text::join2(u.path.as_str(), "/");
            put_path(text, path.as_str())
        },
    }
}

}
