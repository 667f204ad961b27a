use vstd::prelude::*;

verus! {

/// A session of the administration interface.
#[derive(Debug, Clone)]
pub struct AdminSession {
    pub id: String,
    pub user_id: i64,
    pub expires_at: i64,
    pub created_at: i64,
}

/// What is needed to open a session of the administration interface.
#[derive(Debug, Clone)]
pub struct CreateAdminSession {
    pub user_id: i64,
    pub expires_at: i64,
}

} // verus!
