pub mod auth;

pub use auth::{AuthContext, AuthService};
