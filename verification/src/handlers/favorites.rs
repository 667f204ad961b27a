//! The requests about favorite episodes.

use vstd::prelude::*;
use crate::error::AppError;
use crate::middleware::auth::AuthContext;
use crate::models::favorite::{episode_link, text_or_empty};
use crate::models::{FavoriteEpisode, FavoriteResponse};

verus! {

/// The response `r` shows the favorite `f`.
pub open spec fn shows_favorite(r: FavoriteResponse, f: FavoriteEpisode, base_url: Seq<char>) -> bool {
    &&& r.title@ == text_or_empty(f.title)
    &&& r.url == f.episode_url
    &&& r.podcast_title@ == text_or_empty(f.podcast_title)
    &&& r.podcast_url == f.podcast_url
    &&& r.description == f.description
    &&& r.website == f.website
    &&& r.released == f.released
    &&& r.mygpo_link@ == episode_link(base_url, f.id)
}

/// Answers a request for the caller's favorite episodes, given the stored
/// favorites of the caller. The request is refused when the caller is not
/// the user named in it.
pub fn get_favorites(
    username: &str,
    auth: &AuthContext,
    favorites: &Vec<FavoriteEpisode>,
    base_url: &str,
) -> (r: Result<Vec<FavoriteResponse>, AppError>)
    ensures
        if username@ != auth.username@ {
            r matches Err(AppError::Authentication)
        } else {
            &&& r matches Ok(list)
            &&& list@.len() == favorites@.len()
            &&& forall|i: int|
                0 <= i < favorites@.len() ==> shows_favorite(
                    #[trigger] list@[i],
                    favorites@[i],
                    base_url@,
                )
        },
{
    if String::from_str(username) != auth.username {
        return Err(AppError::Authentication);
    }
    let mut out: Vec<FavoriteResponse> = Vec::new();
    let mut i: usize = 0;
    while i < favorites.len()
        invariant
            i <= favorites@.len(),
            out@.len() == i,
            forall|j: int|
                0 <= j < i ==> shows_favorite(#[trigger] out@[j], favorites@[j], base_url@),
        decreases favorites@.len() - i,
    {
        out.push(favorites[i].to_response(base_url));
        i += 1;
    }
    Ok(out)
}

} // verus!
