pub mod auth;
pub mod clientconfig;
pub mod device_sync;
pub mod devices;
pub mod episodes;
pub mod favorites;
pub mod settings;
pub mod subscriptions;
