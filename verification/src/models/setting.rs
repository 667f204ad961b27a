use vstd::prelude::*;

verus! {

/// One stored setting: a key and its value within a scope (account, device,
/// podcast or episode).
#[derive(Debug, Clone)]
pub struct Setting {
    pub id: i64,
    pub user_id: i64,
    pub scope: String,
    pub podcast_url: Option<String>,
    pub device_id: Option<i64>,
    pub episode_url: Option<String>,
    pub key: String,
    pub value: String,
    pub created_at: i64,
    pub updated_at: i64,
}

/// What identifies a setting.
#[derive(Debug, Clone)]
pub struct SettingKey<'a> {
    pub user_id: i64,
    pub scope: &'a str,
    pub podcast_url: Option<&'a str>,
    pub device_id: Option<i64>,
    pub episode_url: Option<&'a str>,
    pub key: &'a str,
}

} // verus!
