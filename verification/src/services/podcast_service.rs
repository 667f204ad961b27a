//! What is shown of feeds: their stored metadata, or a stand-in made from
//! the URL for a feed of which nothing is stored.

use vstd::prelude::*;
use crate::models::podcast::{fallback_metadata, fallback_title, podcast_link};
use crate::models::{Podcast, PodcastMetadata};

verus! {

/// The position of the last of `podcasts` with the URL `url`; below zero if
/// there is none.
pub open spec fn last_with_url(podcasts: Seq<Podcast>, url: Seq<char>) -> int
    decreases podcasts.len(),
{
    if podcasts.len() == 0 {
        -1
    } else if podcasts.last().url@ == url {
        podcasts.len() - 1
    } else {
        last_with_url(podcasts.drop_last(), url)
    }
}

/// The metadata `m` is what is shown for `url`, given the stored feeds.
pub open spec fn shows(m: PodcastMetadata, podcasts: Seq<Podcast>, url: Seq<char>, base_url: Seq<char>) -> bool {
    let at = last_with_url(podcasts, url);
    &&& m.url@ == url
    &&& m.mygpo_link@ == podcast_link(base_url, url)
    &&& if 0 <= at < podcasts.len() {
        let p = podcasts[at];
        &&& m.title@ == (match p.title {
            Some(t) => t@,
            None => fallback_title(url),
        })
        &&& m.description@ == (match p.description {
            Some(d) => d@,
            None => Seq::<char>::empty(),
        })
        &&& m.subscribers == p.subscriber_count
        &&& m.logo_url == p.logo_url
        &&& m.website == p.website
    } else {
        &&& m.title@ == fallback_title(url)
        &&& m.description@.len() == 0
        &&& m.subscribers == 0
        &&& m.logo_url is None
        &&& m.website is None
    }
}

/// Shows feeds to clients.
pub struct PodcastService {
    pub base_url: String,
}

impl PodcastService {
    /// The service that makes its links under `base_url`.
    pub fn new(base_url: String) -> (r: PodcastService)
        ensures
            r.base_url == base_url,
    {
        PodcastService { base_url }
    }

    fn find_last(podcasts: &Vec<Podcast>, url: &String) -> (r: Option<usize>)
        ensures
            match r {
                Some(i) => i == last_with_url(podcasts@, url@) && i < podcasts@.len()
                    && podcasts@[i as int].url@ == url@,
                None => last_with_url(podcasts@, url@) < 0,
            },
    {
        let mut i: usize = podcasts.len();
        proof {
            assert(podcasts@.take(i as int) =~= podcasts@);
        }
        while i > 0
            invariant
                i <= podcasts@.len(),
                last_with_url(podcasts@, url@) == last_with_url(podcasts@.take(i as int), url@),
            decreases i,
        {
            proof {
                assert(podcasts@.take(i as int).drop_last() =~= podcasts@.take(i - 1));
                assert(podcasts@.take(i as int).last() == podcasts@[i - 1]);
            }
            if podcasts[i - 1].url == *url {
                return Some(i - 1);
            }
            i -= 1;
        }
        None
    }

    /// The metadata shown for a feed of which nothing is stored.
    pub fn create_fallback_metadata(&self, url: &str) -> (r: PodcastMetadata)
        ensures
            shows(r, Seq::<Podcast>::empty(), url@, self.base_url@),
    {
        fallback_metadata(url, self.base_url.as_str())
    }

    /// The metadata to show for each of `urls`, in order: that of the stored
    /// feed with the URL (the last one, should `podcasts` hold several), or
    /// a stand-in made from the URL.
    pub fn get_metadata_for_urls(&self, podcasts: &Vec<Podcast>, urls: &[String]) -> (r: Vec<
        PodcastMetadata,
    >)
        ensures
            r@.len() == urls@.len(),
            forall|i: int|
                0 <= i < urls@.len() ==> shows(#[trigger] r@[i], podcasts@, urls@[i]@, self.base_url@),
    {
        let mut out: Vec<PodcastMetadata> = Vec::new();
        let mut i: usize = 0;
        while i < urls.len()
            invariant
                i <= urls@.len(),
                out@.len() == i,
                forall|j: int|
                    0 <= j < i ==> shows(#[trigger] out@[j], podcasts@, urls@[j]@, self.base_url@),
            decreases urls@.len() - i,
        {
            let metadata: PodcastMetadata = match Self::find_last(podcasts, &urls[i]) {
                Some(at) => podcasts[at].to_metadata(self.base_url.as_str()),
                None => fallback_metadata(urls[i].as_str(), self.base_url.as_str()),
            };
            out.push(metadata);
            i += 1;
        }
        out
    }
}

} // verus!
