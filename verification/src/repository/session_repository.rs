//! The login sessions, each under an id that no other session has.

use vstd::prelude::*;
use crate::error::AppError;
use crate::models::Session;

verus! {

/// Row `i` is the session with id `id`.
pub open spec fn is_session(rows: Seq<Session>, id: Seq<char>, i: int) -> bool {
    0 <= i < rows.len() && rows[i].id@ == id
}

/// The session with id `id`, if there is one.
pub open spec fn session_with_id(rows: Seq<Session>, id: Seq<char>) -> Option<Session> {
    if exists|i: int| is_session(rows, id, i) {
        Some(rows[choose|i: int| is_session(rows, id, i)])
    } else {
        None
    }
}

/// No two sessions have the same id.
pub open spec fn sessions_wf(rows: Seq<Session>) -> bool {
    forall|i: int, j: int| 0 <= i < j < rows.len() ==> rows[i].id@ != rows[j].id@
}

/// The sessions other than the one with id `id`, in order.
pub open spec fn sessions_without(rows: Seq<Session>, id: Seq<char>) -> Seq<Session>
    decreases rows.len(),
{
    if rows.len() == 0 {
        Seq::empty()
    } else if rows.last().id@ == id {
        sessions_without(rows.drop_last(), id)
    } else {
        sessions_without(rows.drop_last(), id).push(rows.last())
    }
}

/// The sessions that have not expired before `time`, in order.
pub open spec fn sessions_alive(rows: Seq<Session>, time: i64) -> Seq<Session>
    decreases rows.len(),
{
    if rows.len() == 0 {
        Seq::empty()
    } else if rows.last().expires_at < time {
        sessions_alive(rows.drop_last(), time)
    } else {
        sessions_alive(rows.drop_last(), time).push(rows.last())
    }
}

/// Among consistent sessions an id leads to the one row that bears it.
pub proof fn lemma_session_with_id(rows: Seq<Session>, id: Seq<char>, i: int)
    requires
        sessions_wf(rows),
        is_session(rows, id, i),
    ensures
        session_with_id(rows, id) == Some(rows[i]),
{
    let c = choose|c: int| is_session(rows, id, c);
    if c < i {
    } else if i < c {
    }
}

/// What is kept is part of what there was.
pub proof fn lemma_kept_sessions(rows: Seq<Session>, id: Seq<char>, time: i64)
    ensures
        sessions_without(rows, id).len() <= rows.len(),
        sessions_alive(rows, time).len() <= rows.len(),
        forall|s: Session| #[trigger]
            sessions_without(rows, id).contains(s) ==> rows.contains(s) && s.id@ != id,
        forall|s: Session| #[trigger]
            sessions_alive(rows, time).contains(s) ==> rows.contains(s) && s.expires_at >= time,
        forall|i: int|
            0 <= i < rows.len() && (#[trigger] rows[i]).id@ != id ==> sessions_without(
                rows,
                id,
            ).contains(rows[i]),
        forall|i: int|
            0 <= i < rows.len() && (#[trigger] rows[i]).expires_at >= time ==> sessions_alive(
                rows,
                time,
            ).contains(rows[i]),
    decreases rows.len(),
{
    if rows.len() > 0 {
        let init = rows.drop_last();
        lemma_kept_sessions(init, id, time);
        let a = sessions_without(rows, id);
        let a0 = sessions_without(init, id);
        let b = sessions_alive(rows, time);
        let b0 = sessions_alive(init, time);
        assert forall|s: Session| a.contains(s) implies rows.contains(s) && s.id@ != id by {
            let k = choose|k: int| 0 <= k < a.len() && a[k] == s;
            if k < a0.len() {
                assert(a0[k] == s);
                assert(a0.contains(s));
                let j = choose|j: int| 0 <= j < init.len() && init[j] == s;
                assert(rows[j] == s);
            } else {
                assert(rows[rows.len() - 1] == s);
            }
        }
        assert forall|s: Session| b.contains(s) implies rows.contains(s) && s.expires_at
            >= time by {
            let k = choose|k: int| 0 <= k < b.len() && b[k] == s;
            if k < b0.len() {
                assert(b0[k] == s);
                assert(b0.contains(s));
                let j = choose|j: int| 0 <= j < init.len() && init[j] == s;
                assert(rows[j] == s);
            } else {
                assert(rows[rows.len() - 1] == s);
            }
        }
        assert forall|i: int| 0 <= i < rows.len() && (#[trigger] rows[i]).id@ != id implies a.contains(
            rows[i],
        ) by {
            if i < init.len() {
                assert(init[i] == rows[i]);
                assert(a0.contains(rows[i]));
                let k = choose|k: int| 0 <= k < a0.len() && a0[k] == rows[i];
                assert(a[k] == rows[i]);
            } else {
                assert(a[a.len() - 1] == rows[i]);
            }
        }
        assert forall|i: int|
            0 <= i < rows.len() && (#[trigger] rows[i]).expires_at >= time implies b.contains(
            rows[i],
        ) by {
            if i < init.len() {
                assert(init[i] == rows[i]);
                assert(b0.contains(rows[i]));
                let k = choose|k: int| 0 <= k < b0.len() && b0[k] == rows[i];
                assert(b[k] == rows[i]);
            } else {
                assert(b[b.len() - 1] == rows[i]);
            }
        }
    }
}

/// The login sessions.
pub struct SessionRepository {
    sessions: Vec<Session>,
}

impl View for SessionRepository {
    type V = Seq<Session>;

    closed spec fn view(&self) -> Seq<Session> {
        self.sessions@
    }
}

impl SessionRepository {
    /// No two sessions have the same id.
    pub open spec fn wf(&self) -> bool {
        sessions_wf(self@)
    }

    /// No sessions.
    pub fn new() -> (r: SessionRepository)
        ensures
            r.wf(),
            r@ == Seq::<Session>::empty(),
    {
        SessionRepository { sessions: Vec::new() }
    }

    /// The sessions that the given rows stand for, if no two of them have
    /// the same id.
    pub fn from_rows(rows: Vec<Session>) -> (r: Option<SessionRepository>)
        ensures
            match r {
                Some(repo) => repo.wf() && repo@ == rows@,
                None => !sessions_wf(rows@),
            },
    {
        let mut j: usize = 0;
        while j < rows.len()
            invariant
                j <= rows@.len(),
                sessions_wf(rows@.take(j as int)),
            decreases rows@.len() - j,
        {
            let mut i: usize = 0;
            while i < j
                invariant
                    i <= j < rows@.len(),
                    forall|k: int| 0 <= k < i ==> rows@[k].id@ != rows@[j as int].id@,
                decreases j - i,
            {
                if rows[i].id == rows[j].id {
                    return None;
                }
                i += 1;
            }
            proof {
                let before = rows@.take(j as int);
                let after = rows@.take(j + 1);
                assert forall|a: int, b: int| 0 <= a < b < after.len() implies after[a].id@
                    != after[b].id@ by {
                    if b < j {
                        assert(before[a] == after[a] && before[b] == after[b]);
                    }
                }
            }
            j += 1;
        }
        proof {
            assert(rows@.take(rows@.len() as int) =~= rows@);
        }
        Some(SessionRepository { sessions: rows })
    }

    /// All rows, in the order in which the sessions were opened.
    pub fn rows(&self) -> (r: Vec<Session>)
        ensures
            r@ == self@,
    {
        let mut out: Vec<Session> = Vec::new();
        let mut i: usize = 0;
        while i < self.sessions.len()
            invariant
                i <= self@.len(),
                out@ == self@.take(i as int),
            decreases self@.len() - i,
        {
            out.push(self.sessions[i].clone());
            proof {
                assert(out@ =~= self@.take(i + 1));
            }
            i += 1;
        }
        proof {
            assert(self@.take(self@.len() as int) =~= self@);
        }
        out
    }

    /// Stores a new session. Fails, changing nothing, when the id is in use.
    pub fn create(&mut self, id: &str, user_id: i64, expires_at: i64, now: i64) -> (r: Result<
        (),
        AppError,
    >)
        requires
            old(self).wf(),
        ensures
            final(self).wf(),
            match session_with_id(old(self)@, id@) {
                None => {
                    &&& r is Ok
                    &&& final(self)@.len() == old(self)@.len() + 1
                    &&& final(self)@.drop_last() == old(self)@
                    &&& final(self)@.last().id@ == id@
                    &&& final(self)@.last().user_id == user_id
                    &&& final(self)@.last().expires_at == expires_at
                    &&& final(self)@.last().created_at == now
                },
                Some(_) => {
                    &&& r matches Err(AppError::Database(msg)) && msg@ == "session id is in use"@
                    &&& final(self)@ == old(self)@
                },
            },
    {
        if self.find_by_id(id).is_some() {
            return Err(AppError::Database(String::from_str("session id is in use")));
        }
        let session = Session { id: String::from_str(id), user_id, expires_at, created_at: now };
        self.sessions.push(session);
        proof {
            assert(self@.drop_last() =~= old(self)@);
            assert forall|i: int, j: int| 0 <= i < j < self@.len() implies self@[i].id@
                != self@[j].id@ by {
                if j == old(self)@.len() {
                    assert(!is_session(old(self)@, id@, i));
                }
            }
        }
        Ok(())
    }

    /// The session with id `id`, if there is one.
    pub fn find_by_id(&self, id: &str) -> (r: Option<Session>)
        requires
            self.wf(),
        ensures
            r == session_with_id(self@, id@),
    {
        let wanted: String = String::from_str(id);
        let mut i: usize = 0;
        while i < self.sessions.len()
            invariant
                self.wf(),
                wanted@ == id@,
                i <= self@.len(),
                forall|j: int| 0 <= j < i ==> !is_session(self@, id@, j),
            decreases self@.len() - i,
        {
            if self.sessions[i].id == wanted {
                proof {
                    lemma_session_with_id(self@, id@, i as int);
                }
                return Some(self.sessions[i].clone());
            }
            i += 1;
        }
        None
    }

    fn keep(&mut self, id: Option<&String>, time: Option<i64>) -> (removed: usize)
        requires
            old(self).wf(),
            id is Some != time is Some,
        ensures
            final(self).wf(),
            id matches Some(wanted) ==> final(self)@ == sessions_without(old(self)@, wanted@),
            time matches Some(t) ==> final(self)@ == sessions_alive(old(self)@, t),
            removed == old(self)@.len() - final(self)@.len(),
    {
        let mut kept: Vec<Session> = Vec::new();
        let mut i: usize = 0;
        let ghost rows = self@;
        proof {
            assert(rows.take(0) =~= Seq::<Session>::empty());
        }
        while i < self.sessions.len()
            invariant
                *self == *old(self),
                rows == self@,
                i <= rows.len(),
                id is Some != time is Some,
                id matches Some(wanted) ==> kept@ == sessions_without(rows.take(i as int), wanted@),
                time matches Some(t) ==> kept@ == sessions_alive(rows.take(i as int), t),
                kept@.len() <= i,
            decreases rows.len() - i,
        {
            proof {
                assert(rows.take(i + 1).drop_last() =~= rows.take(i as int));
                assert(rows.take(i + 1).last() == rows[i as int]);
            }
            let drop: bool = match id {
                Some(wanted) => self.sessions[i].id == *wanted,
                None => match time {
                    Some(t) => self.sessions[i].expires_at < t,
                    None => false,
                },
            };
            if !drop {
                kept.push(self.sessions[i].clone());
            }
            i += 1;
        }
        proof {
            assert(rows.take(rows.len() as int) =~= rows);
            match id {
                Some(wanted) => lemma_kept_sessions(rows, wanted@, 0),
                None => lemma_kept_sessions(rows, Seq::empty(), time.unwrap()),
            }
            assert forall|a: int, b: int| 0 <= a < b < kept@.len() implies kept@[a].id@
                != kept@[b].id@ by {
                lemma_kept_order(rows, id, time, a, b);
            }
        }
        let removed: usize = self.sessions.len() - kept.len();
        self.sessions = kept;
        removed
    }

    /// Removes the session with id `id`, if there is one.
    pub fn delete(&mut self, id: &str)
        requires
            old(self).wf(),
        ensures
            final(self).wf(),
            final(self)@ == sessions_without(old(self)@, id@),
    {
        let wanted: String = String::from_str(id);
        let _ = self.keep(Some(&wanted), None);
    }

    /// Removes the sessions that expired before `current_time` and returns
    /// how many they were.
    pub fn delete_expired(&mut self, current_time: i64) -> (r: u64)
        requires
            old(self).wf(),
        ensures
            final(self).wf(),
            final(self)@ == sessions_alive(old(self)@, current_time),
            r == old(self)@.len() - final(self)@.len(),
    {
        let removed: usize = self.keep(None, Some(current_time));
        removed as u64
    }
}

/// What is kept of the rows, by either rule.
pub open spec fn kept_rows(rows: Seq<Session>, id: Option<&String>, time: Option<i64>) -> Seq<Session> {
    match id {
        Some(wanted) => sessions_without(rows, wanted@),
        None => sessions_alive(rows, time.unwrap()),
    }
}

/// What is kept keeps its ids apart.
pub proof fn lemma_kept_order(
    rows: Seq<Session>,
    id: Option<&String>,
    time: Option<i64>,
    a: int,
    b: int,
)
    requires
        sessions_wf(rows),
        id is Some != time is Some,
        0 <= a < b < kept_rows(rows, id, time).len(),
    ensures
        kept_rows(rows, id, time)[a].id@ != kept_rows(rows, id, time)[b].id@,
    decreases rows.len(),
{
    let init = rows.drop_last();
    let all = kept_rows(rows, id, time);
    let prev = kept_rows(init, id, time);
    if b < prev.len() {
        lemma_kept_order(init, id, time, a, b);
    } else {
        match id {
            Some(wanted) => lemma_kept_sessions(init, wanted@, 0),
            None => lemma_kept_sessions(init, Seq::empty(), time.unwrap()),
        }
        assert(prev[a] == all[a]);
        assert(prev.contains(prev[a]));
        assert(init.contains(prev[a]));
        let j = choose|j: int| 0 <= j < init.len() && init[j] == prev[a];
        assert(rows[j] == prev[a]);
        assert(all[b] == rows[rows.len() - 1]);
    }
}

} // verus!
