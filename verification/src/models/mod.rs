pub mod admin_session;
pub mod device;
pub mod device_sync;
pub mod episode_action;
pub mod favorite;
pub mod podcast;
pub mod session;
pub mod setting;
pub mod subscription;
pub mod user;

pub use admin_session::{AdminSession, CreateAdminSession};
pub use device::Device;
pub use device_sync::{DeviceSyncGroup, DeviceSyncMember, DeviceSyncRequest, DeviceSyncStatus};
pub use episode_action::{
    CreateEpisodeAction, EpisodeAction, EpisodeActionQuery, EpisodeActionWithDevice,
};
pub use favorite::{FavoriteEpisode, FavoriteMetadata, FavoriteResponse};
pub use podcast::{Podcast, PodcastMetadata};
pub use session::Session;
pub use setting::{Setting, SettingKey};
pub use subscription::{Subscription, SubscriptionChanges};
pub use user::User;
