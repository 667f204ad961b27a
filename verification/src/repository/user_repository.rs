//! The accounts. Each has a key of its own and a name that no other
//! account has.

use vstd::prelude::*;
use crate::error::AppError;
use crate::models::User;

verus! {

/// Row `i` is the account called `name`.
pub open spec fn is_user_named(rows: Seq<User>, name: Seq<char>, i: int) -> bool {
    0 <= i < rows.len() && rows[i].username@ == name
}

/// The account called `name`, if there is one.
pub open spec fn user_named(rows: Seq<User>, name: Seq<char>) -> Option<User> {
    if exists|i: int| is_user_named(rows, name, i) {
        Some(rows[choose|i: int| is_user_named(rows, name, i)])
    } else {
        None
    }
}

/// Row `i` is the account with key `id`.
pub open spec fn is_user_id(rows: Seq<User>, id: i64, i: int) -> bool {
    0 <= i < rows.len() && rows[i].id == id
}

/// The account with key `id`, if there is one.
pub open spec fn user_with_id(rows: Seq<User>, id: i64) -> Option<User> {
    if exists|i: int| is_user_id(rows, id, i) {
        Some(rows[choose|i: int| is_user_id(rows, id, i)])
    } else {
        None
    }
}

/// The rows of a consistent set of accounts: keys ascend in the order of
/// creation, and no two accounts have the same name.
pub open spec fn users_wf(rows: Seq<User>) -> bool {
    &&& forall|i: int, j: int| 0 <= i < j < rows.len() ==> rows[i].id < rows[j].id
    &&& forall|i: int, j: int| 0 <= i < j < rows.len() ==> rows[i].username@ != rows[j].username@
}

/// Among consistent accounts a name leads to the one row that bears it.
pub proof fn lemma_user_named(rows: Seq<User>, name: Seq<char>, i: int)
    requires
        users_wf(rows),
        is_user_named(rows, name, i),
    ensures
        user_named(rows, name) == Some(rows[i]),
{
    let c = choose|c: int| is_user_named(rows, name, c);
    if c < i {
    } else if i < c {
    }
}

/// Among consistent accounts a key leads to the one row that bears it.
pub proof fn lemma_user_with_id(rows: Seq<User>, id: i64, i: int)
    requires
        users_wf(rows),
        is_user_id(rows, id, i),
    ensures
        user_with_id(rows, id) == Some(rows[i]),
{
    let c = choose|c: int| is_user_id(rows, id, c);
    if c < i {
    } else if i < c {
    }
}

/// The accounts.
pub struct UserRepository {
    users: Vec<User>,
    next_id: i64,
}

impl View for UserRepository {
    type V = Seq<User>;

    closed spec fn view(&self) -> Seq<User> {
        self.users@
    }
}

impl UserRepository {
    /// The key that the next new account gets.
    pub closed spec fn next_user_id(&self) -> int {
        self.next_id as int
    }

    /// The accounts are consistent, and every key is below the next key to
    /// be given out.
    pub open spec fn wf(&self) -> bool {
        &&& users_wf(self@)
        &&& forall|i: int| 0 <= i < self@.len() ==> (#[trigger] self@[i]).id < self.next_user_id()
    }

    /// No accounts.
    pub fn new() -> (r: UserRepository)
        ensures
            r.wf(),
            r@ == Seq::<User>::empty(),
            r.next_user_id() == 1,
    {
        UserRepository { users: Vec::new(), next_id: 1 }
    }

    /// Creates an account and returns it. Fails, changing nothing, when the
    /// name is taken or when the keys are used up.
    pub fn create(&mut self, username: &str, password_hash: &str, is_admin: bool, now: i64) -> (r:
        Result<User, AppError>)
        requires
            old(self).wf(),
        ensures
            final(self).wf(),
            user_named(old(self)@, username@) is None && old(self).next_user_id() < i64::MAX ==> {
                &&& r matches Ok(user)
                &&& user.id == old(self).next_user_id()
                &&& user.username@ == username@
                &&& user.password_hash@ == password_hash@
                &&& user.is_admin == is_admin
                &&& user.created_at == now
                &&& final(self)@ == old(self)@.push(user)
                &&& final(self).next_user_id() == old(self).next_user_id() + 1
            },
            !(user_named(old(self)@, username@) is None && old(self).next_user_id() < i64::MAX)
                ==> {
                &&& r matches Err(AppError::Database(msg)) && msg@ == (if user_named(
                    old(self)@,
                    username@,
                ) is Some {
                    "username is taken"@
                } else {
                    "user keys are used up"@
                })
                &&& final(self)@ == old(self)@
                &&& final(self).next_user_id() == old(self).next_user_id()
            },
    {
        if self.find_by_username(username).is_some() {
            return Err(AppError::Database(String::from_str("username is taken")));
        }
        if self.next_id == i64::MAX {
            return Err(AppError::Database(String::from_str("user keys are used up")));
        }
        let id: i64 = self.next_id;
        let user = User {
            id,
            username: String::from_str(username),
            password_hash: String::from_str(password_hash),
            is_admin,
            created_at: now,
        };
        let answer: User = user.clone();
        self.users.push(user);
        self.next_id = id + 1;
        proof {
            assert forall|i: int, j: int| 0 <= i < j < self@.len() implies self@[i].username@
                != self@[j].username@ by {
                if j == old(self)@.len() {
                    assert(!is_user_named(old(self)@, username@, i));
                }
            }
        }
        Ok(answer)
    }

    /// The account called `username`, if there is one.
    pub fn find_by_username(&self, username: &str) -> (r: Option<User>)
        requires
            self.wf(),
        ensures
            r == user_named(self@, username@),
    {
        let wanted: String = String::from_str(username);
        let mut i: usize = 0;
        while i < self.users.len()
            invariant
                self.wf(),
                wanted@ == username@,
                i <= self@.len(),
                forall|j: int| 0 <= j < i ==> !is_user_named(self@, username@, j),
            decreases self@.len() - i,
        {
            if self.users[i].username == wanted {
                proof {
                    lemma_user_named(self@, username@, i as int);
                }
                return Some(self.users[i].clone());
            }
            i += 1;
        }
        None
    }

    /// The account with key `id`, if there is one.
    pub fn find_by_id(&self, id: i64) -> (r: Option<User>)
        requires
            self.wf(),
        ensures
            r == user_with_id(self@, id),
    {
        let mut i: usize = 0;
        while i < self.users.len()
            invariant
                self.wf(),
                i <= self@.len(),
                forall|j: int| 0 <= j < i ==> !is_user_id(self@, id, j),
            decreases self@.len() - i,
        {
            if self.users[i].id == id {
                proof {
                    lemma_user_with_id(self@, id, i as int);
                }
                return Some(self.users[i].clone());
            }
            i += 1;
        }
        None
    }

    /// Tells whether there is no account at all.
    pub fn is_empty(&self) -> (r: bool)
        ensures
            r == (self@.len() == 0),
    {
        self.users.len() == 0
    }

    /// The accounts that the given rows stand for, if they are consistent
    /// and all their keys are below `next_id`.
    pub fn from_rows(rows: Vec<User>, next_id: i64) -> (r: Option<UserRepository>)
        ensures
            match r {
                Some(repo) => repo.wf() && repo@ == rows@ && repo.next_user_id() == next_id,
                None => !(users_wf(rows@) && forall|i: int|
                    0 <= i < rows@.len() ==> (#[trigger] rows@[i]).id < next_id),
            },
    {
        let mut j: usize = 0;
        while j < rows.len()
            invariant
                j <= rows@.len(),
                users_wf(rows@.take(j as int)),
                forall|i: int| 0 <= i < j ==> (#[trigger] rows@[i]).id < next_id,
            decreases rows@.len() - j,
        {
            if rows[j].id >= next_id {
                return None;
            }
            if j > 0 && rows[j - 1].id >= rows[j].id {
                return None;
            }
            let mut i: usize = 0;
            while i < j
                invariant
                    i <= j < rows@.len(),
                    forall|k: int| 0 <= k < i ==> rows@[k].username@ != rows@[j as int].username@,
                decreases j - i,
            {
                if rows[i].username == rows[j].username {
                    return None;
                }
                i += 1;
            }
            proof {
                let before = rows@.take(j as int);
                let after = rows@.take(j + 1);
                assert forall|a: int, b: int| 0 <= a < b < after.len() implies after[a].id
                    < after[b].id && after[a].username@ != after[b].username@ by {
                    if b < j {
                        assert(before[a] == after[a] && before[b] == after[b]);
                    } else if a < j - 1 {
                        assert(before[a].id < before[j - 1].id);
                    }
                }
            }
            j += 1;
        }
        proof {
            assert(rows@.take(rows@.len() as int) =~= rows@);
        }
        Some(UserRepository { users: rows, next_id })
    }

    /// All rows, in the order of creation.
    pub fn rows(&self) -> (r: Vec<User>)
        ensures
            r@ == self@,
    {
        let mut out: Vec<User> = Vec::new();
        let mut i: usize = 0;
        while i < self.users.len()
            invariant
                i <= self@.len(),
                out@ == self@.take(i as int),
            decreases self@.len() - i,
        {
            out.push(self.users[i].clone());
            proof {
                assert(out@ =~= self@.take(i + 1));
            }
            i += 1;
        }
        proof {
            assert(self@.take(self@.len() as int) =~= self@);
        }
        out
    }

    /// The key that the next new account gets.
    pub fn peek_next_user_id(&self) -> (r: i64)
        ensures
            r == self.next_user_id(),
    {
        self.next_id
    }
}

} // verus!
