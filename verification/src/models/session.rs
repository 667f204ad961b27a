use vstd::prelude::*;

verus! {

/// A login session of a user, valid until `expires_at`.
#[derive(Debug)]
pub struct Session {
    pub id: String,
    pub user_id: i64,
    pub expires_at: i64,
    pub created_at: i64,
}

impl Clone for Session {
    fn clone(&self) -> (r: Session)
        ensures
            r == *self,
    {
        Session {
            id: self.id.clone(),
            user_id: self.user_id,
            expires_at: self.expires_at,
            created_at: self.created_at,
        }
    }
}

} // verus!
