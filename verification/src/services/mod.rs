pub mod device_service;
pub mod device_sync_service;
pub mod podcast_service;
pub mod session_service;
pub mod setting_service;
pub mod subscription_service;
pub mod user_service;

pub use device_service::DeviceService;
pub use device_sync_service::DeviceSyncService;
pub use podcast_service::PodcastService;
pub use session_service::SessionService;
pub use subscription_service::SubscriptionService;
pub use user_service::UserService;
