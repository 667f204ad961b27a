//! The requests about episode actions.

use vstd::prelude::*;
use crate::error::AppError;
use crate::middleware::auth::AuthContext;
use crate::models::{EpisodeAction, EpisodeActionQuery};
use crate::text::{clone_opt, contains_string, views};

verus! {

/// The parameters of a request for episode actions.
#[derive(Debug)]
pub struct EpisodeActionQueryParams {
    pub since: Option<i64>,
    pub podcast: Option<String>,
    pub device: Option<String>,
    pub aggregated: Option<bool>,
}

/// The feeds that a list of actions is about, each once, in the order in
/// which they first occur.
pub open spec fn feeds_of(actions: Seq<EpisodeAction>) -> Seq<Seq<char>>
    decreases actions.len(),
{
    if actions.len() == 0 {
        Seq::empty()
    } else {
        let rest = feeds_of(actions.drop_last());
        if rest.contains(actions.last().podcast_url@) {
            rest
        } else {
            rest.push(actions.last().podcast_url@)
        }
    }
}

/// Those of the actions that are about the feed `url`, in order.
pub open spec fn actions_about(actions: Seq<EpisodeAction>, url: Seq<char>) -> Seq<EpisodeAction>
    decreases actions.len(),
{
    if actions.len() == 0 {
        Seq::empty()
    } else if actions.last().podcast_url@ == url {
        actions_about(actions.drop_last(), url).push(actions.last())
    } else {
        actions_about(actions.drop_last(), url)
    }
}

/// The request for a user's episode actions that the parameters stand for.
/// The request is refused when the caller is not the user named in it.
pub fn episode_action_query(
    username: &str,
    auth: &AuthContext,
    params: &EpisodeActionQueryParams,
) -> (r: Result<EpisodeActionQuery, AppError>)
    ensures
        if username@ != auth.username@ {
            r matches Err(AppError::Authorization)
        } else {
            &&& r matches Ok(query)
            &&& query.since == params.since
            &&& query.podcast == params.podcast
            &&& query.device == params.device
            &&& query.aggregated == params.aggregated
        },
{
    if String::from_str(username) != auth.username {
        return Err(AppError::Authorization);
    }
    Ok(
        EpisodeActionQuery {
            since: params.since,
            podcast: clone_opt(&params.podcast),
            device: clone_opt(&params.device),
            aggregated: params.aggregated,
        },
    )
}

fn about(actions: &Vec<EpisodeAction>, url: &String) -> (r: Vec<EpisodeAction>)
    ensures
        r@ == actions_about(actions@, url@),
{
    let mut out: Vec<EpisodeAction> = Vec::new();
    let mut i: usize = 0;
    proof {
        assert(actions@.take(0) =~= Seq::<EpisodeAction>::empty());
    }
    while i < actions.len()
        invariant
            i <= actions@.len(),
            out@ == actions_about(actions@.take(i as int), url@),
        decreases actions@.len() - i,
    {
        proof {
            assert(actions@.take(i + 1).drop_last() =~= actions@.take(i as int));
            assert(actions@.take(i + 1).last() == actions@[i as int]);
        }
        if actions[i].podcast_url == *url {
            out.push(actions[i].clone());
        }
        i += 1;
    }
    proof {
        assert(actions@.take(actions@.len() as int) =~= actions@);
    }
    out
}

/// Sorts episode actions by the feed they are about: one group for each
/// feed, in the order in which the feeds first occur, each with its actions
/// in the order given.
pub fn group_by_podcast(actions: &Vec<EpisodeAction>) -> (r: Vec<(String, Vec<EpisodeAction>)>)
    ensures
        r@.len() == feeds_of(actions@).len(),
        forall|k: int|
            0 <= k < r@.len() ==> (#[trigger] r@[k]).0@ == feeds_of(actions@)[k] && r@[k].1@
                == actions_about(actions@, feeds_of(actions@)[k]),
{
    let mut feeds: Vec<String> = Vec::new();
    let mut i: usize = 0;
    proof {
        assert(actions@.take(0) =~= Seq::<EpisodeAction>::empty());
        assert(views(feeds@) =~= Seq::<Seq<char>>::empty());
    }
    while i < actions.len()
        invariant
            i <= actions@.len(),
            views(feeds@) == feeds_of(actions@.take(i as int)),
        decreases actions@.len() - i,
    {
        let ghost before = views(feeds@);
        proof {
            assert(actions@.take(i + 1).drop_last() =~= actions@.take(i as int));
            assert(actions@.take(i + 1).last() == actions@[i as int]);
        }
        if !contains_string(&feeds, &actions[i].podcast_url) {
            feeds.push(actions[i].podcast_url.clone());
            proof {
                assert(views(feeds@) =~= before.push(actions@[i as int].podcast_url@));
            }
        }
        i += 1;
    }
    proof {
        assert(actions@.take(actions@.len() as int) =~= actions@);
    }
    let mut out: Vec<(String, Vec<EpisodeAction>)> = Vec::new();
    let mut k: usize = 0;
    while k < feeds.len()
        invariant
            k <= feeds@.len(),
            views(feeds@) == feeds_of(actions@),
            out@.len() == k,
            forall|j: int|
                0 <= j < k ==> (#[trigger] out@[j]).0@ == feeds_of(actions@)[j] && out@[j].1@
                    == actions_about(actions@, feeds_of(actions@)[j]),
        decreases feeds@.len() - k,
    {
        proof {
            assert(views(feeds@)[k as int] == feeds@[k as int]@);
        }
        let group: Vec<EpisodeAction> = about(actions, &feeds[k]);
        out.push((feeds[k].clone(), group));
        k += 1;
    }
    proof {
        assert(views(feeds@).len() == feeds@.len());
    }
    out
}

} // verus!
