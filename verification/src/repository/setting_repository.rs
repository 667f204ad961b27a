//! The queries on the table of settings. A setting belongs to a scope, and
//! within the scope to a podcast, a device or an episode, or to none of
//! them; a part that is missing is stored as NULL and asked for as such.

use vstd::prelude::*;

verus! {

pub use crate::models::setting::SettingKey;

/// The condition on one part of a scope: that the column has the value
/// bound to the next place holder, or that it is NULL.
pub open spec fn column_condition(column: Seq<char>, given: bool) -> Seq<char> {
    if given {
        column + " = ?"@
    } else {
        column + " IS NULL"@
    }
}

/// The three conditions on the parts of a scope, joined by AND.
pub open spec fn scope_conditions(podcast: bool, device: bool, episode: bool) -> Seq<char> {
    column_condition("podcast_url"@, podcast) + " AND "@ + column_condition("device_id"@, device)
        + " AND "@ + column_condition("episode_url"@, episode)
}

/// The query that reads the settings of a scope, ordered by key.
pub open spec fn select_settings_query(podcast: bool, device: bool, episode: bool) -> Seq<char> {
    "SELECT id, user_id, scope, podcast_url, device_id, episode_url, key, value, created_at, updated_at FROM settings WHERE user_id = ? AND scope = ? AND "@
        + scope_conditions(podcast, device, episode) + " ORDER BY key ASC"@
}

/// The statement that deletes one setting of a scope.
pub open spec fn delete_setting_statement(podcast: bool, device: bool, episode: bool) -> Seq<char> {
    "DELETE FROM settings WHERE user_id = ? AND scope = ? AND "@ + scope_conditions(
        podcast,
        device,
        episode,
    ) + " AND key = ?"@
}

fn condition(column: &str, given: bool) -> (r: String)
    ensures
        r@ == column_condition(column@, given),
{
    if given {
        String::from_str(column).concat(" = ?")
    } else {
        String::from_str(column).concat(" IS NULL")
    }
}

fn conditions(podcast: bool, device: bool, episode: bool) -> (r: String)
    ensures
        r@ == scope_conditions(podcast, device, episode),
{
    let first: String = condition("podcast_url", podcast);
    let second: String = condition("device_id", device);
    let third: String = condition("episode_url", episode);
    first.concat(" AND ").concat(second.as_str()).concat(" AND ").concat(third.as_str())
}

/// The query that reads the settings of a scope, ordered by key. The user
/// and the scope are bound first, then those of podcast, device and episode
/// that are given, in this order.
pub fn select_settings_sql(podcast: bool, device: bool, episode: bool) -> (r: String)
    ensures
        r@ == select_settings_query(podcast, device, episode),
{
    let middle: String = conditions(podcast, device, episode);
    String::from_str(
        "SELECT id, user_id, scope, podcast_url, device_id, episode_url, key, value, created_at, updated_at FROM settings WHERE user_id = ? AND scope = ? AND ",
    ).concat(middle.as_str()).concat(" ORDER BY key ASC")
}

/// The statement that deletes one setting of a scope. The user and the
/// scope are bound first, then those of podcast, device and episode that
/// are given, in this order, and the key last.
pub fn delete_setting_sql(podcast: bool, device: bool, episode: bool) -> (r: String)
    ensures
        r@ == delete_setting_statement(podcast, device, episode),
{
    let middle: String = conditions(podcast, device, episode);
    String::from_str("DELETE FROM settings WHERE user_id = ? AND scope = ? AND ").concat(
        middle.as_str(),
    ).concat(" AND key = ?")
}

} // verus!
