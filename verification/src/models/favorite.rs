use vstd::prelude::*;
use crate::text::{clone_opt, decimal, i64_to_string};

verus! {

/// An episode that a user marked as a favorite, as stored.
#[derive(Debug, Clone)]
pub struct FavoriteEpisode {
    pub id: i64,
    pub user_id: i64,
    pub podcast_url: String,
    pub episode_url: String,
    pub title: Option<String>,
    pub podcast_title: Option<String>,
    pub description: Option<String>,
    pub website: Option<String>,
    pub released: Option<String>,
    pub created_at: i64,
}

/// What a client tells about an episode when marking it as a favorite.
#[derive(Debug, Clone)]
pub struct FavoriteMetadata<'a> {
    pub podcast_url: &'a str,
    pub episode_url: &'a str,
    pub title: Option<&'a str>,
    pub podcast_title: Option<&'a str>,
    pub description: Option<&'a str>,
    pub website: Option<&'a str>,
    pub released: Option<&'a str>,
}

/// A favorite episode as it is shown to clients.
#[derive(Debug)]
pub struct FavoriteResponse {
    pub title: String,
    pub url: String,
    pub podcast_title: String,
    pub podcast_url: String,
    pub description: Option<String>,
    pub website: Option<String>,
    pub released: Option<String>,
    pub mygpo_link: String,
}

/// The text of an optional string; empty if there is none.
pub open spec fn text_or_empty(o: Option<String>) -> Seq<char> {
    match o {
        Some(s) => s@,
        None => Seq::empty(),
    }
}

/// The link to an episode's page: the base URL, `/episode/` and the key of
/// the favorite in decimal.
pub open spec fn episode_link(base_url: Seq<char>, id: i64) -> Seq<char> {
    base_url + "/episode/"@ + decimal(id as int)
}

impl FavoriteEpisode {
    /// The favorite as it is shown to clients: a missing title or podcast
    /// title becomes the empty string, and a link to the episode's page is
    /// added.
    pub fn to_response(&self, base_url: &str) -> (r: FavoriteResponse)
        ensures
            r.title@ == text_or_empty(self.title),
            r.url == self.episode_url,
            r.podcast_title@ == text_or_empty(self.podcast_title),
            r.podcast_url == self.podcast_url,
            r.description == self.description,
            r.website == self.website,
            r.released == self.released,
            r.mygpo_link@ == episode_link(base_url@, self.id),
    {
        let title: String = match &self.title {
            Some(t) => t.clone(),
            None => String::new(),
        };
        let podcast_title: String = match &self.podcast_title {
            Some(t) => t.clone(),
            None => String::new(),
        };
        let id_text: String = i64_to_string(self.id);
        FavoriteResponse {
            title,
            url: self.episode_url.clone(),
            podcast_title,
            podcast_url: self.podcast_url.clone(),
            description: clone_opt(&self.description),
            website: clone_opt(&self.website),
            released: clone_opt(&self.released),
            mygpo_link: String::from_str(base_url).concat("/episode/").concat(id_text.as_str()),
        }
    }
}

} // verus!
