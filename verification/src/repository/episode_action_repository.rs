//! The query on the table of episode actions.

use vstd::prelude::*;
use crate::models::EpisodeActionQuery;

verus! {

/// A condition, if it is asked for.
pub open spec fn optional_condition(asked: bool, condition: Seq<char>) -> Seq<char> {
    if asked {
        condition
    } else {
        Seq::empty()
    }
}

/// The query that reads a user's episode actions, the latest first, with a
/// condition for each part of the request that is given.
pub open spec fn list_actions_query(since: bool, podcast: bool, device: bool) -> Seq<char> {
    "SELECT ea.id, ea.user_id, ea.device_id as device_id_fk, d.device_id as device, ea.podcast_url, ea.episode_url, ea.action, ea.timestamp, ea.started, ea.position, ea.total, ea.created_at FROM episode_actions ea INNER JOIN devices d ON ea.device_id = d.id WHERE ea.user_id = ?"@
        + optional_condition(since, " AND ea.timestamp >= ?"@) + optional_condition(
        podcast,
        " AND ea.podcast_url = ?"@,
    ) + optional_condition(device, " AND d.device_id = ?"@) + " ORDER BY ea.timestamp DESC"@
}

/// The query that reads a user's episode actions as a request asks for
/// them. The user is bound first, then those of since, podcast and device
/// that the request gives, in this order.
pub fn list_actions_sql(query: &EpisodeActionQuery) -> (r: String)
    ensures
        r@ == list_actions_query(query.since is Some, query.podcast is Some, query.device is Some),
{
    let mut sql: String = String::from_str(
        "SELECT ea.id, ea.user_id, ea.device_id as device_id_fk, d.device_id as device, ea.podcast_url, ea.episode_url, ea.action, ea.timestamp, ea.started, ea.position, ea.total, ea.created_at FROM episode_actions ea INNER JOIN devices d ON ea.device_id = d.id WHERE ea.user_id = ?",
    );
    let ghost head = sql@;
    if query.since.is_some() {
        sql.append(" AND ea.timestamp >= ?");
    }
    let ghost first = sql@;
    if query.podcast.is_some() {
        sql.append(" AND ea.podcast_url = ?");
    }
    let ghost second = sql@;
    if query.device.is_some() {
        sql.append(" AND d.device_id = ?");
    }
    let ghost third = sql@;
    sql.append(" ORDER BY ea.timestamp DESC");
    proof {
        assert(first =~= head + optional_condition(
            query.since is Some,
            " AND ea.timestamp >= ?"@,
        ));
        assert(second =~= first + optional_condition(
            query.podcast is Some,
            " AND ea.podcast_url = ?"@,
        ));
        assert(third =~= second + optional_condition(
            query.device is Some,
            " AND d.device_id = ?"@,
        ));
    }
    sql
}

} // verus!
