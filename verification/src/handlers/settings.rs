//! The requests about settings. Saving the settings of an episode also
//! keeps the user's favorite episodes: the setting `is_favorite` marks and
//! unmarks an episode.

use vstd::prelude::*;
use crate::text::{clone_opt, contains_string, views};

verus! {

/// The parameters that say which scope's settings a request is about.
#[derive(Debug)]
pub struct SettingsQueryParams {
    pub podcast: Option<String>,
    pub device: Option<String>,
    pub episode: Option<String>,
}

/// One setting of a request to save settings: its key, and its value read
/// as a truth value and as a string, where it is one.
#[derive(Debug)]
pub struct SettingEntry {
    pub key: String,
    pub as_bool: Option<bool>,
    pub as_str: Option<String>,
}

/// What is known of an episode that is marked as a favorite.
#[derive(Debug)]
pub struct FavoriteDetails {
    pub podcast_url: String,
    pub episode_url: String,
    pub title: Option<String>,
    pub podcast_title: Option<String>,
    pub description: Option<String>,
    pub website: Option<String>,
    pub released: Option<String>,
}

/// A change to the user's favorite episodes.
#[derive(Debug)]
pub enum FavoriteChange {
    /// The episode is marked, or what is known of it is brought up to date.
    Add(FavoriteDetails),
    /// The episode with this URL is unmarked.
    Remove(String),
}

/// The position of the first entry with the key `key`; the number of
/// entries if there is none.
pub open spec fn entry_at(entries: Seq<SettingEntry>, key: Seq<char>) -> int
    decreases entries.len(),
{
    if entries.len() == 0 || entries[0].key@ == key {
        0
    } else {
        1 + entry_at(entries.drop_first(), key)
    }
}

/// The string value of the entry with the key `key`, if there is such an
/// entry and its value is a string.
pub open spec fn text_of_entry(entries: Seq<SettingEntry>, key: Seq<char>) -> Option<String> {
    let at = entry_at(entries, key);
    if 0 <= at < entries.len() {
        entries[at].as_str
    } else {
        None
    }
}

/// The request marks the episode as a favorite.
pub open spec fn marks_favorite(set: Option<Vec<SettingEntry>>) -> bool {
    set matches Some(entries) && ({
        let at = entry_at(entries@, "is_favorite"@);
        0 <= at < entries@.len() && entries@[at].as_bool == Some(true)
    })
}

/// The request says of the episode, by a setting, that it is no favorite.
pub open spec fn unmarks_favorite(set: Option<Vec<SettingEntry>>) -> bool {
    set matches Some(entries) && ({
        let at = entry_at(entries@, "is_favorite"@);
        0 <= at < entries@.len() && entries@[at].as_bool != Some(true)
    })
}

/// The request removes the setting that marks the episode.
pub open spec fn removes_mark(remove: Option<Vec<String>>) -> bool {
    remove matches Some(keys) && views(keys@).contains("is_favorite"@)
}

/// The details `d` are what a request says of the episode `episode`.
pub open spec fn details_match(
    d: FavoriteDetails,
    podcast: Option<String>,
    episode: Seq<char>,
    entries: Seq<SettingEntry>,
) -> bool {
    &&& d.podcast_url@ == (match podcast {
        Some(p) => p@,
        None => Seq::<char>::empty(),
    })
    &&& d.episode_url@ == episode
    &&& d.title == text_of_entry(entries, "title"@)
    &&& d.podcast_title == text_of_entry(entries, "podcast_title"@)
    &&& d.description == text_of_entry(entries, "description"@)
    &&& d.website == text_of_entry(entries, "website"@)
    &&& d.released == text_of_entry(entries, "released"@)
}

fn find_entry(entries: &Vec<SettingEntry>, key: &str) -> (r: usize)
    ensures
        r == entry_at(entries@, key@),
        r <= entries@.len(),
{
    let wanted: String = String::from_str(key);
    let mut i: usize = 0;
    proof {
        assert(entries@.skip(0) =~= entries@);
    }
    while i < entries.len() && entries[i].key != wanted
        invariant
            wanted@ == key@,
            i <= entries@.len(),
            entry_at(entries@, key@) == i + entry_at(entries@.skip(i as int), key@),
        decreases entries@.len() - i,
    {
        proof {
            assert(entries@.skip(i as int)[0] == entries@[i as int]);
            assert(entries@.skip(i as int).drop_first() =~= entries@.skip(i + 1));
        }
        i += 1;
    }
    proof {
        if i < entries@.len() {
            assert(entries@.skip(i as int)[0] == entries@[i as int]);
        }
    }
    i
}

fn text_entry(entries: &Vec<SettingEntry>, key: &str) -> (r: Option<String>)
    ensures
        r == text_of_entry(entries@, key@),
{
    let at: usize = find_entry(entries, key);
    if at < entries.len() {
        clone_opt(&entries[at].as_str)
    } else {
        None
    }
}

/// The changes to the user's favorite episodes that a request to save
/// settings brings with it.
///
/// Only a request about the settings of an episode, in the scope
/// `episode`, changes anything. If it sets `is_favorite`, the episode is
/// marked when the value is `true` and unmarked otherwise. If it removes
/// `is_favorite`, the episode is unmarked (after the marking, if it does
/// both).
pub fn favorite_changes(
    scope: &str,
    podcast: &Option<String>,
    episode: &Option<String>,
    set: &Option<Vec<SettingEntry>>,
    remove: &Option<Vec<String>>,
) -> (r: Vec<FavoriteChange>)
    ensures
        (scope@ != "episode"@ || episode is None) ==> r@.len() == 0,
        (scope@ == "episode"@ && episode is Some) ==> {
            let url = episode.unwrap()@;
            let first: int = if marks_favorite(*set) || unmarks_favorite(*set) {
                1
            } else {
                0
            };
            let second: int = if removes_mark(*remove) {
                1
            } else {
                0
            };
            &&& r@.len() == first + second
            &&& marks_favorite(*set) ==> (r@[0] matches FavoriteChange::Add(d) && details_match(
                d,
                *podcast,
                url,
                set.unwrap()@,
            ))
            &&& unmarks_favorite(*set) ==> (r@[0] matches FavoriteChange::Remove(u) && u@ == url)
            &&& removes_mark(*remove) ==> (r@[first] matches FavoriteChange::Remove(u) && u@
                == url)
        },
{
    let mut out: Vec<FavoriteChange> = Vec::new();
    if String::from_str(scope) != String::from_str("episode") {
        return out;
    }
    let episode_url: &String = match episode {
        Some(url) => url,
        None => {
            return out;
        },
    };
    match set {
        Some(entries) => {
            let at: usize = find_entry(entries, "is_favorite");
            if at < entries.len() {
                let is_favorite: bool = match entries[at].as_bool {
                    Some(b) => b,
                    None => false,
                };
                if is_favorite {
                    let podcast_url: String = match podcast {
                        Some(p) => p.clone(),
                        None => String::new(),
                    };
                    out.push(
                        FavoriteChange::Add(
                            FavoriteDetails {
                                podcast_url,
                                episode_url: episode_url.clone(),
                                title: text_entry(entries, "title"),
                                podcast_title: text_entry(entries, "podcast_title"),
                                description: text_entry(entries, "description"),
                                website: text_entry(entries, "website"),
                                released: text_entry(entries, "released"),
                            },
                        ),
                    );
                } else {
                    out.push(FavoriteChange::Remove(episode_url.clone()));
                }
            }
        },
        None => {},
    }
    match remove {
        Some(keys) => {
            if contains_string(keys, &String::from_str("is_favorite")) {
                out.push(FavoriteChange::Remove(episode_url.clone()));
            }
        },
        None => {},
    }
    out
}

} // verus!
