use vstd::prelude::*;
use vstd::utf8::encode_utf8;
use crate::text::{after_last, clone_opt, text_after_last};

verus! {

/// What is known about a feed.
#[derive(Debug)]
pub struct Podcast {
    pub id: i64,
    pub url: String,
    pub title: Option<String>,
    pub description: Option<String>,
    pub website: Option<String>,
    pub logo_url: Option<String>,
    pub subscriber_count: i64,
    pub created_at: i64,
    pub updated_at: i64,
}

/// A feed as it is shown to clients.
#[derive(Debug, Clone)]
pub struct PodcastMetadata {
    pub url: String,
    pub title: String,
    pub description: String,
    pub subscribers: i64,
    pub logo_url: Option<String>,
    pub website: Option<String>,
    pub mygpo_link: String,
}

/// The byte stands for itself in a percent-encoded text: it is a letter, a
/// digit, or one of `-`, `.`, `_` and `~`.
pub open spec fn is_unreserved(b: u8) -> bool {
    (0x30 <= b <= 0x39) || (0x41 <= b <= 0x5A) || (0x61 <= b <= 0x7A) || b == 0x2D || b == 0x2E
        || b == 0x5F || b == 0x7E
}

/// The hexadecimal digit for a number below sixteen, in upper case.
pub open spec fn hex_digit(d: int) -> char {
    if d < 10 {
        (0x30 + d) as char
    } else {
        (0x41 + d - 10) as char
    }
}

/// One byte, percent-encoded.
pub open spec fn percent_byte(b: u8) -> Seq<char> {
    if is_unreserved(b) {
        seq![b as char]
    } else {
        seq!['%', hex_digit(b as int / 16), hex_digit(b as int % 16)]
    }
}

/// A sequence of bytes, percent-encoded byte by byte.
pub open spec fn percent_bytes(bytes: Seq<u8>) -> Seq<char>
    decreases bytes.len(),
{
    if bytes.len() == 0 {
        Seq::empty()
    } else {
        percent_bytes(bytes.drop_last()) + percent_byte(bytes.last())
    }
}

/// A text, percent-encoded: each byte of its UTF-8 form that is not
/// unreserved is written as `%` and two hexadecimal digits.
pub open spec fn percent_encoded(text: Seq<char>) -> Seq<char> {
    percent_bytes(encode_utf8(text))
}

/// Calls `urlencoding::encode`, which percent-encodes every byte of a text
/// but the letters, the digits and `-`, `.`, `_`, `~`, with upper-case
/// hexadecimal digits.
#[verifier::external_body]
fn url_encode(text: &str) -> (r: String)
    ensures
        r@ == percent_encoded(text@),
{
    urlencoding::encode(text).into_owned()
}

/// The title that stands in for a feed without one: what stands behind the
/// last slash of its URL.
pub open spec fn fallback_title(url: Seq<char>) -> Seq<char> {
    after_last(url, '/')
}

/// The link to a feed's page: the base URL, `/podcast/` and the feed's URL,
/// percent-encoded.
pub open spec fn podcast_link(base_url: Seq<char>, url: Seq<char>) -> Seq<char> {
    base_url + "/podcast/"@ + percent_encoded(url)
}

/// The metadata shown for a feed of which nothing but the URL is known.
pub fn fallback_metadata(url: &str, base_url: &str) -> (r: PodcastMetadata)
    ensures
        r.url@ == url@,
        r.title@ == fallback_title(url@),
        r.description@.len() == 0,
        r.subscribers == 0,
        r.logo_url is None,
        r.website is None,
        r.mygpo_link@ == podcast_link(base_url@, url@),
{
    let encoded: String = url_encode(url);
    PodcastMetadata {
        url: String::from_str(url),
        title: text_after_last(url, '/'),
        description: String::new(),
        subscribers: 0,
        logo_url: None,
        website: None,
        mygpo_link: String::from_str(base_url).concat("/podcast/").concat(encoded.as_str()),
    }
}

impl Podcast {
    /// The feed as it is shown to clients. A feed without a title is shown
    /// under the last part of its URL; a missing description becomes the
    /// empty string; a link to the feed's page is added.
    pub fn to_metadata(&self, base_url: &str) -> (r: PodcastMetadata)
        ensures
            r.url == self.url,
            r.title@ == (match self.title {
                Some(t) => t@,
                None => fallback_title(self.url@),
            }),
            r.description@ == (match self.description {
                Some(d) => d@,
                None => Seq::<char>::empty(),
            }),
            r.subscribers == self.subscriber_count,
            r.logo_url == self.logo_url,
            r.website == self.website,
            r.mygpo_link@ == podcast_link(base_url@, self.url@),
    {
        let title: String = match &self.title {
            Some(t) => t.clone(),
            None => text_after_last(self.url.as_str(), '/'),
        };
        let description: String = match &self.description {
            Some(d) => d.clone(),
            None => String::new(),
        };
        let encoded: String = url_encode(self.url.as_str());
        PodcastMetadata {
            url: self.url.clone(),
            title,
            description,
            subscribers: self.subscriber_count,
            logo_url: clone_opt(&self.logo_url),
            website: clone_opt(&self.website),
            mygpo_link: String::from_str(base_url).concat("/podcast/").concat(encoded.as_str()),
        }
    }
}

impl Clone for Podcast {
    fn clone(&self) -> (r: Podcast)
        ensures
            r == *self,
    {
        Podcast {
            id: self.id,
            url: self.url.clone(),
            title: clone_opt(&self.title),
            description: clone_opt(&self.description),
            website: clone_opt(&self.website),
            logo_url: clone_opt(&self.logo_url),
            subscriber_count: self.subscriber_count,
            created_at: self.created_at,
            updated_at: self.updated_at,
        }
    }
}

} // verus!
