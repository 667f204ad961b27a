use vstd::prelude::*;

verus! {

/// Something a user did with an episode on a device, as stored.
#[derive(Debug)]
pub struct EpisodeAction {
    pub id: i64,
    pub user_id: i64,
    pub device_id: i64,
    pub podcast_url: String,
    pub episode_url: String,
    pub action: String,
    pub timestamp: i64,
    pub started: Option<i64>,
    pub position: Option<i64>,
    pub total: Option<i64>,
    pub created_at: i64,
}

impl Clone for EpisodeAction {
    fn clone(&self) -> (r: EpisodeAction)
        ensures
            r == *self,
    {
        EpisodeAction {
            id: self.id,
            user_id: self.user_id,
            device_id: self.device_id,
            podcast_url: self.podcast_url.clone(),
            episode_url: self.episode_url.clone(),
            action: self.action.clone(),
            timestamp: self.timestamp,
            started: self.started,
            position: self.position,
            total: self.total,
            created_at: self.created_at,
        }
    }
}

/// An episode action that is to be stored.
#[derive(Debug, Clone)]
pub struct CreateEpisodeAction {
    pub user_id: i64,
    pub device_id: i64,
    pub podcast_url: String,
    pub episode_url: String,
    pub action: String,
    pub timestamp: i64,
    pub started: Option<i64>,
    pub position: Option<i64>,
    pub total: Option<i64>,
}

/// Which episode actions a client asks for.
#[derive(Debug, Clone)]
pub struct EpisodeActionQuery {
    pub since: Option<i64>,
    pub podcast: Option<String>,
    pub device: Option<String>,
    pub aggregated: Option<bool>,
}

/// A stored episode action together with the name of its device.
#[derive(Debug, Clone)]
pub struct EpisodeActionWithDevice {
    pub id: i64,
    pub user_id: i64,
    pub device_id_fk: i64,
    pub device: String,
    pub podcast_url: String,
    pub episode_url: String,
    pub action: String,
    pub timestamp: i64,
    pub started: Option<i64>,
    pub position: Option<i64>,
    pub total: Option<i64>,
    pub created_at: i64,
}

} // verus!
