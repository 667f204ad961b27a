pub mod device_repository;
pub mod device_sync_repository;
pub mod episode_action_repository;
pub mod session_repository;
pub mod setting_repository;
pub mod subscription_repository;
pub mod user_repository;

pub use device_repository::DeviceRepository;
pub use device_sync_repository::DeviceSyncRepository;
pub use session_repository::SessionRepository;
pub use subscription_repository::SubscriptionRepository;
pub use user_repository::UserRepository;
