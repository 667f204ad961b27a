//! The subscription log. For each feed that a device ever subscribed to it
//! keeps one row: the time of the last subscribing and, while the device is
//! unsubscribed, the time of the unsubscribing. Rows are never deleted, so
//! the log can tell what changed since a given time.

use vstd::prelude::*;
use crate::models::{Subscription, SubscriptionChanges};
use crate::ordered::{
    entries_ascending,
    entry_views,
    insert_entry,
    lemma_entry_lt_irreflexive,
    lemma_sorted_is,
    lists,
    sorted_entries,
    strip_times,
    texts_of,
};
use crate::text::{difference, lemma_texts_take, lemma_without, text_set, views, without};

verus! {

/// What identifies a row of the log.
pub ghost struct SubscriptionKey {
    pub user_id: i64,
    pub device_id: i64,
    pub podcast_url: Seq<char>,
}

/// What a row of the log records.
pub ghost struct SubscriptionTimes {
    pub added_at: i64,
    pub removed_at: Option<i64>,
}

/// The key of the feed `url` on device `device` of user `user`.
pub open spec fn key(user: i64, device: i64, url: Seq<char>) -> SubscriptionKey {
    SubscriptionKey { user_id: user, device_id: device, podcast_url: url }
}

/// The device is subscribed to the feed.
pub open spec fn is_active(log: Map<SubscriptionKey, SubscriptionTimes>, k: SubscriptionKey) -> bool {
    log.contains_key(k) && log[k].removed_at is None
}

/// The log after a device subscribed at time `ts`: an active row stays as it
/// is, an inactive row becomes active again, a missing row is made.
pub open spec fn subscribe(
    log: Map<SubscriptionKey, SubscriptionTimes>,
    k: SubscriptionKey,
    ts: i64,
) -> Map<SubscriptionKey, SubscriptionTimes> {
    if is_active(log, k) {
        log
    } else {
        log.insert(k, SubscriptionTimes { added_at: ts, removed_at: None })
    }
}

/// The log after a device unsubscribed at time `ts`: an active row is marked
/// as removed; nothing else changes.
pub open spec fn unsubscribe(
    log: Map<SubscriptionKey, SubscriptionTimes>,
    k: SubscriptionKey,
    ts: i64,
) -> Map<SubscriptionKey, SubscriptionTimes> {
    if is_active(log, k) {
        log.insert(k, SubscriptionTimes { added_at: log[k].added_at, removed_at: Some(ts) })
    } else {
        log
    }
}

/// The log after a device subscribed to each of `urls`, in order.
pub open spec fn subscribe_all(
    log: Map<SubscriptionKey, SubscriptionTimes>,
    user: i64,
    device: i64,
    urls: Seq<Seq<char>>,
    ts: i64,
) -> Map<SubscriptionKey, SubscriptionTimes>
    decreases urls.len(),
{
    if urls.len() == 0 {
        log
    } else {
        subscribe(
            subscribe_all(log, user, device, urls.drop_last(), ts),
            key(user, device, urls.last()),
            ts,
        )
    }
}

/// The log after a device unsubscribed from each of `urls`, in order.
pub open spec fn unsubscribe_all(
    log: Map<SubscriptionKey, SubscriptionTimes>,
    user: i64,
    device: i64,
    urls: Seq<Seq<char>>,
    ts: i64,
) -> Map<SubscriptionKey, SubscriptionTimes>
    decreases urls.len(),
{
    if urls.len() == 0 {
        log
    } else {
        unsubscribe(
            unsubscribe_all(log, user, device, urls.drop_last(), ts),
            key(user, device, urls.last()),
            ts,
        )
    }
}

/// The log after a batch of changes: first the subscribing, then the
/// unsubscribing.
pub open spec fn applied(
    log: Map<SubscriptionKey, SubscriptionTimes>,
    user: i64,
    device: i64,
    add: Seq<Seq<char>>,
    remove: Seq<Seq<char>>,
    ts: i64,
) -> Map<SubscriptionKey, SubscriptionTimes> {
    unsubscribe_all(subscribe_all(log, user, device, add, ts), user, device, remove, ts)
}

/// The log after a device's subscriptions were set to `desired`: the device
/// subscribes to what it lacks and unsubscribes from what is not desired;
/// what is already as desired is left untouched.
pub open spec fn reconciled(
    log: Map<SubscriptionKey, SubscriptionTimes>,
    user: i64,
    device: i64,
    desired: Set<Seq<char>>,
    ts: i64,
) -> Map<SubscriptionKey, SubscriptionTimes> {
    Map::new(
        |k: SubscriptionKey|
            log.contains_key(k) || (k.user_id == user && k.device_id == device
                && desired.contains(k.podcast_url)),
        |k: SubscriptionKey|
            if k.user_id == user && k.device_id == device {
                if desired.contains(k.podcast_url) {
                    if is_active(log, k) {
                        log[k]
                    } else {
                        SubscriptionTimes { added_at: ts, removed_at: None }
                    }
                } else if is_active(log, k) {
                    SubscriptionTimes { added_at: log[k].added_at, removed_at: Some(ts) }
                } else {
                    log[k]
                }
            } else {
                log[k]
            },
    )
}

/// The log with a fresh active row for each of `urls` that the device is not
/// subscribed to.
pub open spec fn reconciled_adds(
    log: Map<SubscriptionKey, SubscriptionTimes>,
    user: i64,
    device: i64,
    urls: Seq<Seq<char>>,
    ts: i64,
) -> Map<SubscriptionKey, SubscriptionTimes> {
    Map::new(
        |k: SubscriptionKey|
            log.contains_key(k) || (k.user_id == user && k.device_id == device && urls.contains(
                k.podcast_url,
            )),
        |k: SubscriptionKey|
            if k.user_id == user && k.device_id == device && urls.contains(k.podcast_url)
                && !is_active(log, k) {
                SubscriptionTimes { added_at: ts, removed_at: None }
            } else {
                log[k]
            },
    )
}

/// The log with each of `urls` that the device is subscribed to marked as
/// removed.
pub open spec fn reconciled_removes(
    log: Map<SubscriptionKey, SubscriptionTimes>,
    user: i64,
    device: i64,
    urls: Seq<Seq<char>>,
    ts: i64,
) -> Map<SubscriptionKey, SubscriptionTimes> {
    Map::new(
        |k: SubscriptionKey| log.contains_key(k),
        |k: SubscriptionKey|
            if k.user_id == user && k.device_id == device && urls.contains(k.podcast_url)
                && is_active(log, k) {
                SubscriptionTimes { added_at: log[k].added_at, removed_at: Some(ts) }
            } else {
                log[k]
            },
    )
}

/// The feeds that a device is subscribed to.
pub open spec fn current_urls(
    log: Map<SubscriptionKey, SubscriptionTimes>,
    user: i64,
    device: i64,
) -> Set<Seq<char>> {
    Set::new(|url: Seq<char>| is_active(log, key(user, device, url)))
}

/// The feeds that a device is subscribed to since some time after `since`.
pub open spec fn added_urls(
    log: Map<SubscriptionKey, SubscriptionTimes>,
    user: i64,
    device: i64,
    since: i64,
) -> Set<Seq<char>> {
    Set::new(
        |url: Seq<char>|
            is_active(log, key(user, device, url)) && log[key(user, device, url)].added_at
                > since,
    )
}

/// The feeds that a device unsubscribed from at some time after `since` and
/// has not subscribed to again.
pub open spec fn removed_urls(
    log: Map<SubscriptionKey, SubscriptionTimes>,
    user: i64,
    device: i64,
    since: i64,
) -> Set<Seq<char>> {
    Set::new(
        |url: Seq<char>|
            log.contains_key(key(user, device, url)) && (log[key(
                user,
                device,
                url,
            )].removed_at matches Some(t) && t > since),
    )
}

/// The feeds that one or more devices of a user are subscribed to.
pub open spec fn user_urls(log: Map<SubscriptionKey, SubscriptionTimes>, user: i64) -> Set<
    Seq<char>,
> {
    Set::new(|url: Seq<char>| exists|device: i64| is_active(log, key(user, device, url)))
}

/// The feeds that the log shows a device as subscribed to at time `since`:
/// those subscribed to at or before it and not unsubscribed from by then.
pub open spec fn urls_as_of(
    log: Map<SubscriptionKey, SubscriptionTimes>,
    user: i64,
    device: i64,
    since: i64,
) -> Set<Seq<char>> {
    Set::new(
        |url: Seq<char>|
            {
                let k = key(user, device, url);
                &&& log.contains_key(k)
                &&& log[k].added_at <= since
                &&& (log[k].removed_at matches Some(t) ==> t > since)
            },
    )
}

/// The rows that count towards a user's subscriptions: the active rows of
/// one device, or of all the user's devices if none is named.
pub open spec fn active_keys(
    log: Map<SubscriptionKey, SubscriptionTimes>,
    user: i64,
    device: Option<i64>,
) -> Set<SubscriptionKey> {
    Set::new(
        |k: SubscriptionKey|
            is_active(log, k) && k.user_id == user && (device matches Some(d) ==> k.device_id
                == d),
    )
}

/// A count as a signed number, capped at the largest one.
pub open spec fn capped(n: nat) -> i64 {
    if n <= i64::MAX {
        n as i64
    } else {
        i64::MAX
    }
}

/// What a query lists.
pub enum Selection {
    /// The feeds a device is subscribed to, by the time of subscribing.
    Current,
    /// Of those, the ones subscribed to after the given time.
    AddedSince(i64),
    /// The feeds a device unsubscribed from after the given time, by the
    /// time of unsubscribing.
    RemovedSince(i64),
    /// The feeds any device of the user is subscribed to, by URL.
    AllOfUser,
}

/// The time under which a row is listed by a query, if it is listed.
pub open spec fn picked(
    k: SubscriptionKey,
    t: SubscriptionTimes,
    user: i64,
    device: i64,
    sel: Selection,
) -> Option<i64> {
    if k.user_id != user {
        None
    } else {
        match sel {
            Selection::Current => if k.device_id == device && t.removed_at is None {
                Some(t.added_at)
            } else {
                None
            },
            Selection::AddedSince(since) => if k.device_id == device && t.removed_at is None
                && t.added_at > since {
                Some(t.added_at)
            } else {
                None
            },
            Selection::RemovedSince(since) => if k.device_id == device && (
            t.removed_at matches Some(r) && r > since) {
                t.removed_at
            } else {
                None
            },
            Selection::AllOfUser => if t.removed_at is None {
                Some(0i64)
            } else {
                None
            },
        }
    }
}

/// Row `k` of the log is listed by the query as entry `e`.
pub open spec fn picks(
    log: Map<SubscriptionKey, SubscriptionTimes>,
    k: SubscriptionKey,
    user: i64,
    device: i64,
    sel: Selection,
    e: (i64, Seq<char>),
) -> bool {
    log.contains_key(k) && k.podcast_url == e.1 && picked(k, log[k], user, device, sel) == Some(
        e.0,
    )
}

/// The entries that a query lists: each listed feed with its time.
pub open spec fn selected(
    log: Map<SubscriptionKey, SubscriptionTimes>,
    user: i64,
    device: i64,
    sel: Selection,
) -> Set<(i64, Seq<char>)> {
    Set::new(|e: (i64, Seq<char>)| exists|k: SubscriptionKey| picks(log, k, user, device, sel, e))
}

/// The answer to a query: the listed feeds, ordered by their time and, at
/// equal times, by URL.
pub open spec fn answer(
    log: Map<SubscriptionKey, SubscriptionTimes>,
    user: i64,
    device: i64,
    sel: Selection,
) -> Seq<Seq<char>> {
    texts_of(sorted_entries(selected(log, user, device, sel)))
}

/// A query lists a feed under one time only.
pub proof fn lemma_selected_once(
    log: Map<SubscriptionKey, SubscriptionTimes>,
    user: i64,
    device: i64,
    sel: Selection,
    a: (i64, Seq<char>),
    b: (i64, Seq<char>),
)
    requires
        selected(log, user, device, sel).contains(a),
        selected(log, user, device, sel).contains(b),
        a.1 == b.1,
    ensures
        a == b,
{
    let ka = choose|k: SubscriptionKey| picks(log, k, user, device, sel, a);
    let kb = choose|k: SubscriptionKey| picks(log, k, user, device, sel, b);
    if !(sel is AllOfUser) {
        assert(ka == kb);
    }
}

/// The answer to a query holds each listed feed once, given that the listed
/// entries can be put in order at all.
pub proof fn lemma_answer_holds(
    log: Map<SubscriptionKey, SubscriptionTimes>,
    user: i64,
    device: i64,
    sel: Selection,
    q: Seq<(i64, Seq<char>)>,
)
    requires
        lists(q, selected(log, user, device, sel)),
    ensures
        answer(log, user, device, sel) == texts_of(q),
        texts_of(q).no_duplicates(),
        forall|url: Seq<char>|
            texts_of(q).contains(url) <==> exists|t: i64|
                selected(log, user, device, sel).contains((t, url)),
{
    let s = selected(log, user, device, sel);
    lemma_sorted_is(q, s);
    let names = texts_of(q);
    assert forall|i: int, j: int| 0 <= i < j < names.len() implies names[i] != names[j] by {
        assert(q.contains(q[i]));
        assert(q.contains(q[j]));
        if q[i].1 == q[j].1 {
            lemma_selected_once(log, user, device, sel, q[i], q[j]);
            lemma_entry_lt_irreflexive(q[i]);
        }
    }
    assert forall|url: Seq<char>|
        names.contains(url) <==> exists|t: i64| s.contains((t, url)) by {
        if names.contains(url) {
            let i = choose|i: int| 0 <= i < names.len() && names[i] == url;
            assert(q.contains(q[i]));
            assert(s.contains((q[i].0, url)));
        }
        if exists|t: i64| s.contains((t, url)) {
            let t = choose|t: i64| s.contains((t, url));
            assert(q.contains((t, url)));
            let i = choose|i: int| 0 <= i < q.len() && q[i] == (t, url);
            assert(names[i] == url);
        }
    }
}

/// What subscribing to a list of feeds comes to: each listed feed that the
/// device is not subscribed to gets a fresh active row, and nothing else
/// changes.
pub proof fn lemma_subscribe_all(
    log: Map<SubscriptionKey, SubscriptionTimes>,
    user: i64,
    device: i64,
    urls: Seq<Seq<char>>,
    ts: i64,
)
    ensures
        subscribe_all(log, user, device, urls, ts) == reconciled_adds(log, user, device, urls, ts),
    decreases urls.len(),
{
    let goal = reconciled_adds(log, user, device, urls, ts);
    if urls.len() == 0 {
        assert(log =~= goal);
    } else {
        let init = urls.drop_last();
        lemma_subscribe_all(log, user, device, init, ts);
        assert forall|x: Seq<char>| urls.contains(x) <==> init.contains(x) || x == urls.last() by {
            assert(urls.take(urls.len() - 1) =~= init);
            assert(urls.take(urls.len() as int) =~= urls);
            lemma_texts_take(urls, urls.len() - 1, x);
        }
        assert(subscribe_all(log, user, device, urls, ts) =~= goal);
    }
}

/// What unsubscribing from a list of feeds comes to: each listed feed that
/// the device is subscribed to is marked as removed, and nothing else
/// changes.
pub proof fn lemma_unsubscribe_all(
    log: Map<SubscriptionKey, SubscriptionTimes>,
    user: i64,
    device: i64,
    urls: Seq<Seq<char>>,
    ts: i64,
)
    ensures
        unsubscribe_all(log, user, device, urls, ts) == reconciled_removes(
            log,
            user,
            device,
            urls,
            ts,
        ),
    decreases urls.len(),
{
    let goal = reconciled_removes(log, user, device, urls, ts);
    if urls.len() == 0 {
        assert(log =~= goal);
    } else {
        let init = urls.drop_last();
        lemma_unsubscribe_all(log, user, device, init, ts);
        assert forall|x: Seq<char>| urls.contains(x) <==> init.contains(x) || x == urls.last() by {
            assert(urls.take(urls.len() - 1) =~= init);
            assert(urls.take(urls.len() as int) =~= urls);
            lemma_texts_take(urls, urls.len() - 1, x);
        }
        assert(unsubscribe_all(log, user, device, urls, ts) =~= goal);
    }
}

/// Setting a device's subscriptions is idempotent: afterwards the device is
/// subscribed to exactly the desired feeds, and setting them to the same
/// feeds once more, at whatever time, changes nothing in the log.
pub proof fn lemma_reconcile_idempotent(
    log: Map<SubscriptionKey, SubscriptionTimes>,
    user: i64,
    device: i64,
    desired: Set<Seq<char>>,
    first: i64,
    second: i64,
)
    ensures
        current_urls(reconciled(log, user, device, desired, first), user, device) == desired,
        reconciled(reconciled(log, user, device, desired, first), user, device, desired, second)
            == reconciled(log, user, device, desired, first),
{
    let once = reconciled(log, user, device, desired, first);
    let twice = reconciled(once, user, device, desired, second);
    assert(current_urls(once, user, device) =~= desired) by {
        assert forall|url: Seq<char>|
            current_urls(once, user, device).contains(url) <==> desired.contains(url) by {
            let k = key(user, device, url);
            assert(k.podcast_url == url);
        }
    }
    assert(twice =~= once);
}

/// Setting a device's subscriptions leaves alone every feed that is already
/// as desired, and the rows of every other device.
pub proof fn lemma_reconcile_untouched(
    log: Map<SubscriptionKey, SubscriptionTimes>,
    user: i64,
    device: i64,
    desired: Set<Seq<char>>,
    ts: i64,
    k: SubscriptionKey,
)
    requires
        log.contains_key(k),
        k.user_id != user || k.device_id != device || (is_active(log, k) <==> desired.contains(
            k.podcast_url,
        )),
    ensures
        reconciled(log, user, device, desired, ts).contains_key(k),
        reconciled(log, user, device, desired, ts)[k] == log[k],
{
}

/// The changes since a time lead from the subscriptions as of that time to
/// the current ones: what the log shows as subscribed at `since`, with the
/// feeds added since then put in and the feeds removed since then taken
/// out, is what the device is subscribed to now. A feed that was added and
/// removed again after `since` shows among the removed ones only.
pub proof fn lemma_changes_complete(
    log: Map<SubscriptionKey, SubscriptionTimes>,
    user: i64,
    device: i64,
    since: i64,
)
    ensures
        current_urls(log, user, device) == urls_as_of(log, user, device, since).union(
            added_urls(log, user, device, since),
        ).difference(removed_urls(log, user, device, since)),
        added_urls(log, user, device, since).disjoint(removed_urls(log, user, device, since)),
{
    let now = current_urls(log, user, device);
    let then = urls_as_of(log, user, device, since);
    let added = added_urls(log, user, device, since);
    let removed = removed_urls(log, user, device, since);
    assert(now =~= then.union(added).difference(removed));
}

/// One batch of changes, as it was applied to the log.
pub ghost struct Batch {
    pub user_id: i64,
    pub device_id: i64,
    pub add: Seq<Seq<char>>,
    pub remove: Seq<Seq<char>>,
    pub timestamp: i64,
}

/// The log after a sequence of batches was applied to it, one after the
/// other.
pub open spec fn replayed(
    log: Map<SubscriptionKey, SubscriptionTimes>,
    batches: Seq<Batch>,
) -> Map<SubscriptionKey, SubscriptionTimes>
    decreases batches.len(),
{
    if batches.len() == 0 {
        log
    } else {
        let b = batches.last();
        applied(
            replayed(log, batches.drop_last()),
            b.user_id,
            b.device_id,
            b.add,
            b.remove,
            b.timestamp,
        )
    }
}

/// The log `now` shows what happened to the log `then` after the time
/// `since`: a row that is active since `since` or earlier was active then,
/// and a row that was active then and is not any more was removed after
/// `since`.
pub open spec fn tracks(
    then: Map<SubscriptionKey, SubscriptionTimes>,
    now: Map<SubscriptionKey, SubscriptionTimes>,
    since: i64,
) -> bool {
    &&& forall|k: SubscriptionKey|
        #[trigger] is_active(now, k) && now[k].added_at <= since ==> is_active(then, k)
    &&& forall|k: SubscriptionKey|
        #[trigger] is_active(then, k) && !is_active(now, k) ==> now.contains_key(k) && (
        now[k].removed_at matches Some(t) && t > since)
}

/// Subscribing and unsubscribing after `since` keeps track.
pub proof fn lemma_tracks_step(
    then: Map<SubscriptionKey, SubscriptionTimes>,
    now: Map<SubscriptionKey, SubscriptionTimes>,
    since: i64,
    k: SubscriptionKey,
    ts: i64,
)
    requires
        tracks(then, now, since),
        ts > since,
    ensures
        tracks(then, subscribe(now, k, ts), since),
        tracks(then, unsubscribe(now, k, ts), since),
{
    let more = subscribe(now, k, ts);
    let less = unsubscribe(now, k, ts);
    assert forall|x: SubscriptionKey|
        #[trigger] is_active(more, x) && more[x].added_at <= since implies is_active(then, x) by {
        if x != k {
            assert(is_active(now, x));
        } else {
            assert(is_active(now, x));
        }
    }
    assert forall|x: SubscriptionKey| #[trigger] is_active(then, x) && !is_active(more, x) implies more.contains_key(
        x,
    ) && (more[x].removed_at matches Some(t) && t > since) by {
        assert(!is_active(now, x));
    }
    assert forall|x: SubscriptionKey|
        #[trigger] is_active(less, x) && less[x].added_at <= since implies is_active(then, x) by {
        assert(is_active(now, x));
    }
    assert forall|x: SubscriptionKey| #[trigger] is_active(then, x) && !is_active(less, x) implies less.contains_key(
        x,
    ) && (less[x].removed_at matches Some(t) && t > since) by {
        if x != k {
            assert(!is_active(now, x));
        } else if !is_active(now, x) {
        }
    }
}

/// A batch applied after `since` keeps track.
pub proof fn lemma_tracks_batch(
    then: Map<SubscriptionKey, SubscriptionTimes>,
    now: Map<SubscriptionKey, SubscriptionTimes>,
    since: i64,
    user: i64,
    device: i64,
    add: Seq<Seq<char>>,
    remove: Seq<Seq<char>>,
    ts: i64,
)
    requires
        tracks(then, now, since),
        ts > since,
    ensures
        tracks(then, subscribe_all(now, user, device, add, ts), since),
        tracks(then, applied(now, user, device, add, remove, ts), since),
    decreases add.len() + remove.len(),
{
    if remove.len() > 0 {
        lemma_tracks_batch(then, now, since, user, device, add, remove.drop_last(), ts);
        lemma_tracks_step(
            then,
            applied(now, user, device, add, remove.drop_last(), ts),
            since,
            key(user, device, remove.last()),
            ts,
        );
    } else if add.len() > 0 {
        lemma_tracks_batch(then, now, since, user, device, add.drop_last(), remove, ts);
        lemma_tracks_step(
            then,
            subscribe_all(now, user, device, add.drop_last(), ts),
            since,
            key(user, device, add.last()),
            ts,
        );
    }
}

/// The changes since a time are complete. Take the log as it is at some
/// time, and apply to it any batches of changes that are stamped later than
/// `since`. Then what a device was subscribed to at the start, with the
/// feeds reported as added since `since` put in and the feeds reported as
/// removed since `since` taken out, is what the device is subscribed to at
/// the end.
pub proof fn lemma_changes_reconstruct(
    then: Map<SubscriptionKey, SubscriptionTimes>,
    batches: Seq<Batch>,
    user: i64,
    device: i64,
    since: i64,
)
    requires
        forall|i: int| 0 <= i < batches.len() ==> (#[trigger] batches[i]).timestamp > since,
    ensures
        tracks(then, replayed(then, batches), since),
        current_urls(replayed(then, batches), user, device) == current_urls(
            then,
            user,
            device,
        ).union(added_urls(replayed(then, batches), user, device, since)).difference(
            removed_urls(replayed(then, batches), user, device, since),
        ),
    decreases batches.len(),
{
    let now = replayed(then, batches);
    if batches.len() > 0 {
        let init = batches.drop_last();
        let b = batches.last();
        assert forall|i: int| 0 <= i < init.len() implies (#[trigger] init[i]).timestamp
            > since by {
            assert(init[i] == batches[i]);
        }
        lemma_changes_reconstruct(then, init, user, device, since);
        lemma_tracks_batch(
            then,
            replayed(then, init),
            since,
            b.user_id,
            b.device_id,
            b.add,
            b.remove,
            b.timestamp,
        );
    }
    let before = current_urls(then, user, device);
    let goal = before.union(added_urls(now, user, device, since)).difference(
        removed_urls(now, user, device, since),
    );
    assert forall|url: Seq<char>| current_urls(now, user, device).contains(url) <==> goal.contains(
        url,
    ) by {
        let k = key(user, device, url);
        if is_active(now, k) && now[k].added_at <= since {
            assert(is_active(then, k));
        }
        if is_active(then, k) && !is_active(now, k) {
            assert(now.contains_key(k));
        }
    }
    assert(current_urls(now, user, device) =~= goal);
}

/// The key of a row.
pub open spec fn key_of(row: Subscription) -> SubscriptionKey {
    key(row.user_id, row.device_id, row.podcast_url@)
}

/// The times of a row.
pub open spec fn times_of(row: Subscription) -> SubscriptionTimes {
    SubscriptionTimes { added_at: row.added_at, removed_at: row.removed_at }
}

/// The rows say what the log holds: each row is an entry of the log, each
/// entry of the log is a row, and no two rows have the same key.
pub open spec fn rows_of_log(rows: Seq<Subscription>, log: Map<SubscriptionKey, SubscriptionTimes>) -> bool {
    &&& forall|i: int|
        0 <= i < rows.len() ==> log.contains_key(key_of(#[trigger] rows[i])) && log[key_of(
            rows[i],
        )] == times_of(rows[i])
    &&& forall|k: SubscriptionKey| #[trigger]
        log.contains_key(k) ==> exists|i: int| 0 <= i < rows.len() && key_of(rows[i]) == k
    &&& distinct_keys(rows)
}

/// No two rows have the same key.
pub open spec fn distinct_keys(rows: Seq<Subscription>) -> bool {
    forall|i: int, j: int| 0 <= i < j < rows.len() ==> key_of(rows[i]) != key_of(rows[j])
}

/// The subscription log.
pub struct SubscriptionRepository {
    rows: Vec<Subscription>,
}

impl View for SubscriptionRepository {
    type V = Map<SubscriptionKey, SubscriptionTimes>;

    closed spec fn view(&self) -> Map<SubscriptionKey, SubscriptionTimes> {
        Map::new(
            |k: SubscriptionKey| exists|i: int| self.has_row(k, i),
            |k: SubscriptionKey| times_of(self.rows@[choose|i: int| self.has_row(k, i)]),
        )
    }
}

impl SubscriptionRepository {
    /// Row `i` has key `k`.
    pub closed spec fn has_row(&self, k: SubscriptionKey, i: int) -> bool {
        0 <= i < self.rows@.len() && key_of(self.rows@[i]) == k
    }

    /// No two rows have the same key.
    pub closed spec fn wf(&self) -> bool {
        forall|i: int, j: int|
            0 <= i < j < self.rows@.len() ==> key_of(self.rows@[i]) != key_of(self.rows@[j])
    }

    proof fn lemma_row(&self, i: int)
        requires
            self.wf(),
            0 <= i < self.rows@.len(),
        ensures
            self@.contains_key(key_of(self.rows@[i])),
            self@[key_of(self.rows@[i])] == times_of(self.rows@[i]),
    {
        let k = key_of(self.rows@[i]);
        assert(self.has_row(k, i));
        let c = choose|c: int| self.has_row(k, c);
        assert(self.has_row(k, c));
        if c < i {
        } else if i < c {
        }
    }

    proof fn lemma_absent(&self, k: SubscriptionKey)
        requires
            forall|i: int| 0 <= i < self.rows@.len() ==> key_of(self.rows@[i]) != k,
        ensures
            !self@.contains_key(k),
    {
        if self@.contains_key(k) {
            let c = choose|c: int| self.has_row(k, c);
            assert(self.has_row(k, c));
        }
    }

    proof fn lemma_present(&self, k: SubscriptionKey) -> (i: int)
        requires
            self.wf(),
            self@.contains_key(k),
        ensures
            0 <= i < self.rows@.len(),
            key_of(self.rows@[i]) == k,
            times_of(self.rows@[i]) == self@[k],
    {
        let c = choose|c: int| self.has_row(k, c);
        assert(self.has_row(k, c));
        self.lemma_row(c);
        c
    }

    /// An empty log.
    pub fn new() -> (r: SubscriptionRepository)
        ensures
            r.wf(),
            r@ == Map::<SubscriptionKey, SubscriptionTimes>::empty(),
    {
        let r = SubscriptionRepository { rows: Vec::new() };
        proof {
            assert forall|k: SubscriptionKey| !r@.contains_key(k) by {
                r.lemma_absent(k);
            }
            assert(r@ =~= Map::<SubscriptionKey, SubscriptionTimes>::empty());
        }
        r
    }

    fn find_row(&self, user_id: i64, device_id: i64, url: &String) -> (r: Option<usize>)
        requires
            self.wf(),
        ensures
            match r {
                Some(i) => i < self.rows@.len() && key_of(self.rows@[i as int]) == key(
                    user_id,
                    device_id,
                    url@,
                ),
                None => !self@.contains_key(key(user_id, device_id, url@)),
            },
    {
        let mut i: usize = 0;
        while i < self.rows.len()
            invariant
                self.wf(),
                i <= self.rows@.len(),
                forall|j: int|
                    0 <= j < i ==> key_of(self.rows@[j]) != key(user_id, device_id, url@),
            decreases self.rows@.len() - i,
        {
            let row: &Subscription = &self.rows[i];
            if row.user_id == user_id && row.device_id == device_id && row.podcast_url == *url {
                return Some(i);
            }
            i += 1;
        }
        proof {
            self.lemma_absent(key(user_id, device_id, url@));
        }
        None
    }

    /// The row of a feed on a device, if the device ever subscribed to it.
    pub fn get(&self, user_id: i64, device_id: i64, url: &str) -> (r: Option<Subscription>)
        requires
            self.wf(),
        ensures
            match r {
                Some(row) => self@.contains_key(key_of(row)) && key_of(row) == key(
                    user_id,
                    device_id,
                    url@,
                ) && times_of(row) == self@[key_of(row)],
                None => !self@.contains_key(key(user_id, device_id, url@)),
            },
    {
        let wanted: String = String::from_str(url);
        match self.find_row(user_id, device_id, &wanted) {
            Some(i) => {
                proof {
                    self.lemma_row(i as int);
                }
                Some(self.rows[i].clone())
            },
            None => None,
        }
    }

    proof fn lemma_replaced(&self, before: &SubscriptionRepository, at: int, row: Subscription)
        requires
            before.wf(),
            0 <= at < before.rows@.len(),
            key_of(row) == key_of(before.rows@[at]),
            self.rows@ == before.rows@.update(at, row),
        ensures
            self.wf(),
            self@ == before@.insert(key_of(row), times_of(row)),
    {
        assert forall|i: int, j: int| 0 <= i < j < self.rows@.len() implies key_of(self.rows@[i])
            != key_of(self.rows@[j]) by {
            assert(key_of(self.rows@[i]) == key_of(before.rows@[i]));
            assert(key_of(self.rows@[j]) == key_of(before.rows@[j]));
        }
        let goal = before@.insert(key_of(row), times_of(row));
        assert forall|x: SubscriptionKey| #[trigger]
            self@.contains_key(x) == goal.contains_key(x) && (self@.contains_key(x) ==> self@[x]
                == goal[x]) by {
            if goal.contains_key(x) {
                if x == key_of(row) {
                    self.lemma_row(at);
                } else {
                    let c = before.lemma_present(x);
                    assert(self.rows@[c] == before.rows@[c]);
                    self.lemma_row(c);
                }
            } else {
                assert forall|i: int| 0 <= i < self.rows@.len() implies key_of(self.rows@[i])
                    != x by {
                    assert(key_of(self.rows@[i]) == key_of(before.rows@[i]));
                    before.lemma_row(i);
                }
                self.lemma_absent(x);
            }
        }
        assert(self@ =~= goal);
    }

    proof fn lemma_pushed(&self, before: &SubscriptionRepository, row: Subscription)
        requires
            before.wf(),
            !before@.contains_key(key_of(row)),
            self.rows@ == before.rows@.push(row),
        ensures
            self.wf(),
            self@ == before@.insert(key_of(row), times_of(row)),
    {
        let n = before.rows@.len() as int;
        assert forall|i: int, j: int| 0 <= i < j < self.rows@.len() implies key_of(self.rows@[i])
            != key_of(self.rows@[j]) by {
            assert(self.rows@[i] == before.rows@[i]);
            if j < n {
                assert(self.rows@[j] == before.rows@[j]);
            } else {
                before.lemma_row(i);
            }
        }
        let goal = before@.insert(key_of(row), times_of(row));
        assert forall|x: SubscriptionKey| #[trigger]
            self@.contains_key(x) == goal.contains_key(x) && (self@.contains_key(x) ==> self@[x]
                == goal[x]) by {
            if goal.contains_key(x) {
                if x == key_of(row) {
                    self.lemma_row(n);
                } else {
                    let c = before.lemma_present(x);
                    assert(self.rows@[c] == before.rows@[c]);
                    self.lemma_row(c);
                }
            } else {
                assert forall|i: int| 0 <= i < self.rows@.len() implies key_of(self.rows@[i])
                    != x by {
                    if i < n {
                        assert(self.rows@[i] == before.rows@[i]);
                        before.lemma_row(i);
                    }
                }
                self.lemma_absent(x);
            }
        }
        assert(self@ =~= goal);
    }

    /// One of the first `bound` rows is listed by the query as entry `e`.
    pub closed spec fn listed_before(
        &self,
        bound: int,
        user: i64,
        device: i64,
        sel: Selection,
        e: (i64, Seq<char>),
    ) -> bool {
        exists|j: int|
            0 <= j < bound && j < self.rows@.len() && (#[trigger] self.rows@[j]).podcast_url@
                == e.1 && picked(
                key_of(self.rows@[j]),
                times_of(self.rows@[j]),
                user,
                device,
                sel,
            ) == Some(e.0)
    }

    fn pick(row: &Subscription, user_id: i64, device_id: i64, sel: &Selection) -> (r: Option<i64>)
        ensures
            r == picked(key_of(*row), times_of(*row), user_id, device_id, *sel),
    {
        if row.user_id != user_id {
            return None;
        }
        match sel {
            Selection::Current => {
                if row.device_id == device_id && row.removed_at.is_none() {
                    Some(row.added_at)
                } else {
                    None
                }
            },
            Selection::AddedSince(since) => {
                if row.device_id == device_id && row.removed_at.is_none() && row.added_at
                    > *since {
                    Some(row.added_at)
                } else {
                    None
                }
            },
            Selection::RemovedSince(since) => {
                if row.device_id != device_id {
                    None
                } else {
                    match row.removed_at {
                        Some(removed) => {
                            if removed > *since {
                                Some(removed)
                            } else {
                                None
                            }
                        },
                        None => None,
                    }
                }
            },
            Selection::AllOfUser => {
                if row.removed_at.is_none() {
                    Some(0)
                } else {
                    None
                }
            },
        }
    }

    /// Answers a query.
    pub fn collect(&self, user_id: i64, device_id: i64, sel: &Selection) -> (r: Vec<String>)
        requires
            self.wf(),
        ensures
            views(r@) == answer(self@, user_id, device_id, *sel),
            views(r@).no_duplicates(),
            forall|url: Seq<char>|
                #[trigger] views(r@).contains(url) <==> exists|t: i64|
                    selected(self@, user_id, device_id, *sel).contains((t, url)),
    {
        let mut out: Vec<(i64, String)> = Vec::new();
        let mut i: usize = 0;
        proof {
            assert(entry_views(out@) =~= Seq::empty());
        }
        while i < self.rows.len()
            invariant
                self.wf(),
                i <= self.rows@.len(),
                entries_ascending(entry_views(out@)),
                forall|e: (i64, Seq<char>)|
                    entry_views(out@).contains(e) <==> self.listed_before(
                        i as int,
                        user_id,
                        device_id,
                        *sel,
                        e,
                    ),
            decreases self.rows@.len() - i,
        {
            let row: &Subscription = &self.rows[i];
            let ghost before = entry_views(out@);
            match Self::pick(row, user_id, device_id, sel) {
                Some(time) => {
                    insert_entry(&mut out, time, row.podcast_url.clone());
                    proof {
                        let new = (time, row.podcast_url@);
                        assert forall|e: (i64, Seq<char>)|
                            entry_views(out@).contains(e) <==> self.listed_before(
                                i + 1,
                                user_id,
                                device_id,
                                *sel,
                                e,
                            ) by {
                            if self.listed_before(i + 1, user_id, device_id, *sel, e) {
                                let j = choose|j: int|
                                    0 <= j < i + 1 && j < self.rows@.len() && (
                                    #[trigger] self.rows@[j]).podcast_url@ == e.1 && picked(
                                        key_of(self.rows@[j]),
                                        times_of(self.rows@[j]),
                                        user_id,
                                        device_id,
                                        *sel,
                                    ) == Some(e.0);
                                if j < i {
                                    assert(self.listed_before(
                                        i as int,
                                        user_id,
                                        device_id,
                                        *sel,
                                        e,
                                    ));
                                } else {
                                    assert(e == new);
                                }
                            }
                            if before.contains(e) {
                                assert(self.listed_before(i as int, user_id, device_id, *sel, e));
                                let j = choose|j: int|
                                    0 <= j < i && j < self.rows@.len() && (
                                    #[trigger] self.rows@[j]).podcast_url@ == e.1 && picked(
                                        key_of(self.rows@[j]),
                                        times_of(self.rows@[j]),
                                        user_id,
                                        device_id,
                                        *sel,
                                    ) == Some(e.0);
                                assert(self.listed_before(i + 1, user_id, device_id, *sel, e));
                            }
                            if e == new {
                                assert(self.rows@[i as int].podcast_url@ == e.1);
                                assert(self.listed_before(i + 1, user_id, device_id, *sel, e));
                            }
                        }
                    }
                },
                None => {
                    proof {
                        assert forall|e: (i64, Seq<char>)|
                            entry_views(out@).contains(e) <==> self.listed_before(
                                i + 1,
                                user_id,
                                device_id,
                                *sel,
                                e,
                            ) by {
                            if self.listed_before(i + 1, user_id, device_id, *sel, e) {
                                let j = choose|j: int|
                                    0 <= j < i + 1 && j < self.rows@.len() && (
                                    #[trigger] self.rows@[j]).podcast_url@ == e.1 && picked(
                                        key_of(self.rows@[j]),
                                        times_of(self.rows@[j]),
                                        user_id,
                                        device_id,
                                        *sel,
                                    ) == Some(e.0);
                                assert(j < i);
                                assert(self.listed_before(
                                    i as int,
                                    user_id,
                                    device_id,
                                    *sel,
                                    e,
                                ));
                            }
                            if self.listed_before(i as int, user_id, device_id, *sel, e) {
                                let j = choose|j: int|
                                    0 <= j < i && j < self.rows@.len() && (
                                    #[trigger] self.rows@[j]).podcast_url@ == e.1 && picked(
                                        key_of(self.rows@[j]),
                                        times_of(self.rows@[j]),
                                        user_id,
                                        device_id,
                                        *sel,
                                    ) == Some(e.0);
                                assert(self.listed_before(i + 1, user_id, device_id, *sel, e));
                            }
                        }
                    }
                },
            }
            i += 1;
        }
        let urls: Vec<String> = strip_times(&out);
        proof {
            let q = entry_views(out@);
            let s = selected(self@, user_id, device_id, *sel);
            assert forall|e: (i64, Seq<char>)| q.contains(e) <==> s.contains(e) by {
                if q.contains(e) {
                    assert(self.listed_before(i as int, user_id, device_id, *sel, e));
                    let j = choose|j: int|
                        0 <= j < i && j < self.rows@.len() && (
                        #[trigger] self.rows@[j]).podcast_url@ == e.1 && picked(
                            key_of(self.rows@[j]),
                            times_of(self.rows@[j]),
                            user_id,
                            device_id,
                            *sel,
                        ) == Some(e.0);
                    self.lemma_row(j);
                    assert(picks(self@, key_of(self.rows@[j]), user_id, device_id, *sel, e));
                }
                if s.contains(e) {
                    let k = choose|k: SubscriptionKey|
                        picks(self@, k, user_id, device_id, *sel, e);
                    let c = self.lemma_present(k);
                    assert(self.rows@[c].podcast_url@ == e.1);
                    assert(self.listed_before(i as int, user_id, device_id, *sel, e));
                }
            }
            lemma_answer_holds(self@, user_id, device_id, *sel, q);
        }
        urls
    }

    /// Records that a device subscribed to a feed at time `timestamp`.
    pub fn subscribe_one(&mut self, user_id: i64, device_id: i64, url: &String, timestamp: i64)
        requires
            old(self).wf(),
        ensures
            final(self).wf(),
            final(self)@ == subscribe(old(self)@, key(user_id, device_id, url@), timestamp),
    {
        match self.find_row(user_id, device_id, url) {
            Some(i) => {
                proof {
                    self.lemma_row(i as int);
                }
                if self.rows[i].removed_at.is_some() {
                    let row = Subscription {
                        user_id,
                        device_id,
                        podcast_url: url.clone(),
                        added_at: timestamp,
                        removed_at: None,
                    };
                    self.rows.set(i, row);
                    proof {
                        self.lemma_replaced(old(self), i as int, row);
                    }
                }
            },
            None => {
                let row = Subscription {
                    user_id,
                    device_id,
                    podcast_url: url.clone(),
                    added_at: timestamp,
                    removed_at: None,
                };
                self.rows.push(row);
                proof {
                    self.lemma_pushed(old(self), row);
                }
            },
        }
    }

    /// Records that a device unsubscribed from a feed at time `timestamp`.
    pub fn unsubscribe_one(&mut self, user_id: i64, device_id: i64, url: &String, timestamp: i64)
        requires
            old(self).wf(),
        ensures
            final(self).wf(),
            final(self)@ == unsubscribe(old(self)@, key(user_id, device_id, url@), timestamp),
    {
        match self.find_row(user_id, device_id, url) {
            Some(i) => {
                proof {
                    self.lemma_row(i as int);
                }
                if self.rows[i].removed_at.is_none() {
                    let row = Subscription {
                        user_id,
                        device_id,
                        podcast_url: url.clone(),
                        added_at: self.rows[i].added_at,
                        removed_at: Some(timestamp),
                    };
                    self.rows.set(i, row);
                    proof {
                        self.lemma_replaced(old(self), i as int, row);
                    }
                }
            },
            None => {},
        }
    }

    fn subscribe_each(&mut self, user_id: i64, device_id: i64, urls: &Vec<String>, timestamp: i64)
        requires
            old(self).wf(),
        ensures
            final(self).wf(),
            final(self)@ == subscribe_all(old(self)@, user_id, device_id, views(urls@), timestamp),
    {
        let ghost all = views(urls@);
        let mut i: usize = 0;
        proof {
            assert(all.take(0) =~= Seq::<Seq<char>>::empty());
        }
        while i < urls.len()
            invariant
                self.wf(),
                all == views(urls@),
                i <= urls@.len(),
                self@ == subscribe_all(old(self)@, user_id, device_id, all.take(i as int), timestamp),
            decreases urls@.len() - i,
        {
            proof {
                assert(all.take(i + 1).drop_last() =~= all.take(i as int));
                assert(all.take(i + 1).last() == urls@[i as int]@);
            }
            self.subscribe_one(user_id, device_id, &urls[i], timestamp);
            i += 1;
        }
        proof {
            assert(all.take(all.len() as int) =~= all);
        }
    }

    fn unsubscribe_each(&mut self, user_id: i64, device_id: i64, urls: &Vec<String>, timestamp: i64)
        requires
            old(self).wf(),
        ensures
            final(self).wf(),
            final(self)@ == unsubscribe_all(
                old(self)@,
                user_id,
                device_id,
                views(urls@),
                timestamp,
            ),
    {
        let ghost all = views(urls@);
        let mut i: usize = 0;
        proof {
            assert(all.take(0) =~= Seq::<Seq<char>>::empty());
        }
        while i < urls.len()
            invariant
                self.wf(),
                all == views(urls@),
                i <= urls@.len(),
                self@ == unsubscribe_all(
                    old(self)@,
                    user_id,
                    device_id,
                    all.take(i as int),
                    timestamp,
                ),
            decreases urls@.len() - i,
        {
            proof {
                assert(all.take(i + 1).drop_last() =~= all.take(i as int));
                assert(all.take(i + 1).last() == urls@[i as int]@);
            }
            self.unsubscribe_one(user_id, device_id, &urls[i], timestamp);
            i += 1;
        }
        proof {
            assert(all.take(all.len() as int) =~= all);
        }
    }

    /// Applies a batch of changes of one device: the device subscribes to
    /// each feed of `changes.add`, then unsubscribes from each feed of
    /// `changes.remove`, all at the time `changes.timestamp`. Subscribing to
    /// a feed that the device had unsubscribed from makes its row active
    /// again.
    pub fn apply_changes(&mut self, user_id: i64, device_id: i64, changes: SubscriptionChanges)
        requires
            old(self).wf(),
        ensures
            final(self).wf(),
            final(self)@ == applied(
                old(self)@,
                user_id,
                device_id,
                views(changes.add@),
                views(changes.remove@),
                changes.timestamp,
            ),
    {
        self.subscribe_each(user_id, device_id, &changes.add, changes.timestamp);
        self.unsubscribe_each(user_id, device_id, &changes.remove, changes.timestamp);
    }

    /// Sets the subscriptions of a device to `podcast_urls`: the device
    /// subscribes at `timestamp` to the listed feeds that it lacks and
    /// unsubscribes at `timestamp` from its feeds that are not listed. A feed
    /// that is already as wanted is not written to. Returns the feeds
    /// subscribed to, in the order of `podcast_urls`, and the feeds
    /// unsubscribed from, in the order in which the device had them.
    pub fn set_subscriptions(
        &mut self,
        user_id: i64,
        device_id: i64,
        podcast_urls: Vec<String>,
        timestamp: i64,
    ) -> (r: (Vec<String>, Vec<String>))
        requires
            old(self).wf(),
        ensures
            final(self).wf(),
            final(self)@ == reconciled(
                old(self)@,
                user_id,
                device_id,
                text_set(views(podcast_urls@)),
                timestamp,
            ),
            current_urls(final(self)@, user_id, device_id) == text_set(views(podcast_urls@)),
            views(r.0@) == without(
                views(podcast_urls@),
                answer(old(self)@, user_id, device_id, Selection::Current),
            ),
            views(r.1@) == without(
                answer(old(self)@, user_id, device_id, Selection::Current),
                views(podcast_urls@),
            ),
            forall|url: Seq<char>|
                #[trigger] views(r.0@).contains(url) <==> views(podcast_urls@).contains(url)
                    && !current_urls(old(self)@, user_id, device_id).contains(url),
            forall|url: Seq<char>|
                #[trigger] views(r.1@).contains(url) <==> current_urls(
                    old(self)@,
                    user_id,
                    device_id,
                ).contains(url) && !views(podcast_urls@).contains(url),
    {
        let ghost log = self@;
        let ghost desired = views(podcast_urls@);
        let current: Vec<String> = self.list_by_device(user_id, device_id);
        let to_add: Vec<String> = difference(&podcast_urls, &current);
        let to_remove: Vec<String> = difference(&current, &podcast_urls);
        proof {
            assert forall|x: Seq<char>|
                views(to_add@).contains(x) <==> desired.contains(x) && !views(current@).contains(
                    x,
                ) by {
                lemma_without(desired, views(current@), x);
            }
            assert forall|x: Seq<char>|
                views(to_remove@).contains(x) <==> views(current@).contains(x)
                    && !desired.contains(x) by {
                lemma_without(views(current@), desired, x);
            }
        }
        self.subscribe_each(user_id, device_id, &to_add, timestamp);
        let ghost middle = self@;
        self.unsubscribe_each(user_id, device_id, &to_remove, timestamp);
        proof {
            lemma_subscribe_all(log, user_id, device_id, views(to_add@), timestamp);
            lemma_unsubscribe_all(middle, user_id, device_id, views(to_remove@), timestamp);
            let goal = reconciled(log, user_id, device_id, text_set(desired), timestamp);
            assert forall|k: SubscriptionKey|
                k.user_id == user_id && k.device_id == device_id implies (views(
                current@,
            ).contains(k.podcast_url) <==> is_active(log, k)) by {
                assert(k == key(user_id, device_id, k.podcast_url));
            }
            assert(self@ =~= goal);
            lemma_reconcile_idempotent(
                log,
                user_id,
                device_id,
                text_set(desired),
                timestamp,
                timestamp,
            );
            assert forall|url: Seq<char>|
                #[trigger] views(to_add@).contains(url) <==> desired.contains(url)
                    && !current_urls(log, user_id, device_id).contains(url) by {
                lemma_without(desired, views(current@), url);
            }
            assert forall|url: Seq<char>|
                #[trigger] views(to_remove@).contains(url) <==> current_urls(
                    log,
                    user_id,
                    device_id,
                ).contains(url) && !desired.contains(url) by {
                lemma_without(views(current@), desired, url);
            }
        }
        (to_add, to_remove)
    }

    /// The feeds that a device is subscribed to, ordered by the time of
    /// subscribing and, at equal times, by URL.
    pub fn list_by_device(&self, user_id: i64, device_id: i64) -> (r: Vec<String>)
        requires
            self.wf(),
        ensures
            views(r@) == answer(self@, user_id, device_id, Selection::Current),
            views(r@).no_duplicates(),
            forall|url: Seq<char>|
                #[trigger] views(r@).contains(url) <==> current_urls(self@, user_id, device_id).contains(url),
    {
        let r: Vec<String> = self.collect(user_id, device_id, &Selection::Current);
        proof {
            let s = selected(self@, user_id, device_id, Selection::Current);
            assert forall|url: Seq<char>|
                #[trigger] views(r@).contains(url) <==> current_urls(self@, user_id, device_id).contains(
                    url,
                ) by {
                let k = key(user_id, device_id, url);
                if views(r@).contains(url) {
                    let t = choose|t: i64| s.contains((t, url));
                    let w = choose|w: SubscriptionKey|
                        picks(self@, w, user_id, device_id, Selection::Current, (t, url));
                    assert(w == k);
                }
                if is_active(self@, k) {
                    assert(picks(
                        self@,
                        k,
                        user_id,
                        device_id,
                        Selection::Current,
                        (self@[k].added_at, url),
                    ));
                    assert(s.contains((self@[k].added_at, url)));
                }
            }
        }
        r
    }

    /// The feeds that one or more devices of a user are subscribed to, each
    /// once, ordered by URL.
    pub fn list_all_urls_by_user(&self, user_id: i64) -> (r: Vec<String>)
        requires
            self.wf(),
        ensures
            views(r@) == answer(self@, user_id, 0, Selection::AllOfUser),
            views(r@).no_duplicates(),
            forall|url: Seq<char>|
                #[trigger] views(r@).contains(url) <==> user_urls(self@, user_id).contains(url),
    {
        let r: Vec<String> = self.collect(user_id, 0, &Selection::AllOfUser);
        proof {
            let s = selected(self@, user_id, 0, Selection::AllOfUser);
            assert forall|url: Seq<char>|
                #[trigger] views(r@).contains(url) <==> user_urls(self@, user_id).contains(url) by {
                if views(r@).contains(url) {
                    let t = choose|t: i64| s.contains((t, url));
                    let w = choose|w: SubscriptionKey|
                        picks(self@, w, user_id, 0, Selection::AllOfUser, (t, url));
                    assert(w == key(user_id, w.device_id, url));
                    assert(is_active(self@, key(user_id, w.device_id, url)));
                }
                if user_urls(self@, user_id).contains(url) {
                    let d = choose|d: i64| is_active(self@, key(user_id, d, url));
                    assert(picks(
                        self@,
                        key(user_id, d, url),
                        user_id,
                        0,
                        Selection::AllOfUser,
                        (0i64, url),
                    ));
                    assert(s.contains((0i64, url)));
                }
            }
        }
        r
    }

    /// What changed for a device after the time `since`: the feeds that it
    /// is subscribed to since then, ordered by the time of subscribing, and
    /// the feeds that it unsubscribed from since then, ordered by the time
    /// of unsubscribing; at equal times the order is that of the URLs. A feed
    /// that was subscribed to and unsubscribed from after `since` is among
    /// the removed ones only.
    pub fn get_changes_since(&self, user_id: i64, device_id: i64, since: i64) -> (r: (
        Vec<String>,
        Vec<String>,
    ))
        requires
            self.wf(),
        ensures
            views(r.0@) == answer(self@, user_id, device_id, Selection::AddedSince(since)),
            views(r.1@) == answer(self@, user_id, device_id, Selection::RemovedSince(since)),
            views(r.0@).no_duplicates(),
            views(r.1@).no_duplicates(),
            forall|url: Seq<char>|
                #[trigger] views(r.0@).contains(url) <==> added_urls(self@, user_id, device_id, since).contains(
                    url,
                ),
            forall|url: Seq<char>|
                #[trigger] views(r.1@).contains(url) <==> removed_urls(
                    self@,
                    user_id,
                    device_id,
                    since,
                ).contains(url),
    {
        let added: Vec<String> = self.collect(user_id, device_id, &Selection::AddedSince(since));
        let removed: Vec<String> = self.collect(
            user_id,
            device_id,
            &Selection::RemovedSince(since),
        );
        proof {
            let sa = selected(self@, user_id, device_id, Selection::AddedSince(since));
            assert forall|url: Seq<char>|
                #[trigger] views(added@).contains(url) <==> added_urls(
                    self@,
                    user_id,
                    device_id,
                    since,
                ).contains(url) by {
                let k = key(user_id, device_id, url);
                if views(added@).contains(url) {
                    let t = choose|t: i64| sa.contains((t, url));
                    let w = choose|w: SubscriptionKey|
                        picks(self@, w, user_id, device_id, Selection::AddedSince(since), (t, url));
                    assert(w == k);
                }
                if added_urls(self@, user_id, device_id, since).contains(url) {
                    assert(picks(
                        self@,
                        k,
                        user_id,
                        device_id,
                        Selection::AddedSince(since),
                        (self@[k].added_at, url),
                    ));
                    assert(sa.contains((self@[k].added_at, url)));
                }
            }
            let sr = selected(self@, user_id, device_id, Selection::RemovedSince(since));
            assert forall|url: Seq<char>|
                #[trigger] views(removed@).contains(url) <==> removed_urls(
                    self@,
                    user_id,
                    device_id,
                    since,
                ).contains(url) by {
                let k = key(user_id, device_id, url);
                if views(removed@).contains(url) {
                    let t = choose|t: i64| sr.contains((t, url));
                    let w = choose|w: SubscriptionKey|
                        picks(
                            self@,
                            w,
                            user_id,
                            device_id,
                            Selection::RemovedSince(since),
                            (t, url),
                        );
                    assert(w == k);
                }
                if removed_urls(self@, user_id, device_id, since).contains(url) {
                    let t = self@[k].removed_at.unwrap();
                    assert(picks(
                        self@,
                        k,
                        user_id,
                        device_id,
                        Selection::RemovedSince(since),
                        (t, url),
                    ));
                    assert(sr.contains((t, url)));
                }
            }
        }
        (added, removed)
    }

    /// One of the first `bound` rows has key `k` and counts.
    pub closed spec fn counted_before(
        &self,
        bound: int,
        user: i64,
        device: Option<i64>,
        k: SubscriptionKey,
    ) -> bool {
        exists|j: int|
            0 <= j < bound && j < self.rows@.len() && key_of(#[trigger] self.rows@[j]) == k
                && self.rows@[j].removed_at is None && k.user_id == user && (
            device matches Some(d) ==> k.device_id == d)
    }

    /// The number of feeds that a device is subscribed to or, if no device
    /// is named, the number of subscriptions of all devices of the user
    /// together. A number too large for the result is capped.
    pub fn count(&self, user_id: i64, device_id: Option<i64>) -> (r: i64)
        requires
            self.wf(),
        ensures
            active_keys(self@, user_id, device_id).finite(),
            r == capped(active_keys(self@, user_id, device_id).len()),
    {
        let mut n: usize = 0;
        let mut i: usize = 0;
        let ghost mut seen: Set<SubscriptionKey> = Set::empty();
        while i < self.rows.len()
            invariant
                self.wf(),
                i <= self.rows@.len(),
                n <= i,
                seen.finite(),
                seen.len() == n,
                forall|k: SubscriptionKey|
                    seen.contains(k) <==> self.counted_before(i as int, user_id, device_id, k),
            decreases self.rows@.len() - i,
        {
            let row: &Subscription = &self.rows[i];
            let of_device: bool = match device_id {
                Some(d) => row.device_id == d,
                None => true,
            };
            let ghost before = seen;
            let ghost this = key_of(self.rows@[i as int]);
            let counts: bool = row.user_id == user_id && of_device && row.removed_at.is_none();
            if counts {
                proof {
                    if before.contains(this) {
                        assert(self.counted_before(i as int, user_id, device_id, this));
                        let j = choose|j: int|
                            0 <= j < i && j < self.rows@.len() && key_of(
                                #[trigger] self.rows@[j],
                            ) == this && self.rows@[j].removed_at is None && this.user_id
                                == user_id && (device_id matches Some(d) ==> this.device_id == d);
                        assert(key_of(self.rows@[j]) != key_of(self.rows@[i as int]));
                    }
                    seen = before.insert(this);
                }
                n += 1;
            }
            proof {
                assert forall|k: SubscriptionKey|
                    seen.contains(k) <==> self.counted_before(i + 1, user_id, device_id, k) by {
                    if self.counted_before(i + 1, user_id, device_id, k) {
                        let j = choose|j: int|
                            0 <= j < i + 1 && j < self.rows@.len() && key_of(
                                #[trigger] self.rows@[j],
                            ) == k && self.rows@[j].removed_at is None && k.user_id == user_id && (
                            device_id matches Some(d) ==> k.device_id == d);
                        if j < i {
                            assert(self.counted_before(i as int, user_id, device_id, k));
                        }
                    }
                    if before.contains(k) {
                        assert(self.counted_before(i as int, user_id, device_id, k));
                        let j = choose|j: int|
                            0 <= j < i && j < self.rows@.len() && key_of(
                                #[trigger] self.rows@[j],
                            ) == k && self.rows@[j].removed_at is None && k.user_id == user_id && (
                            device_id matches Some(d) ==> k.device_id == d);
                        assert(self.counted_before(i + 1, user_id, device_id, k));
                    }
                    if counts && k == this {
                        assert(key_of(self.rows@[i as int]) == k);
                        assert(self.counted_before(i + 1, user_id, device_id, k));
                    }
                }
            }
            i += 1;
        }
        proof {
            let goal = active_keys(self@, user_id, device_id);
            assert forall|k: SubscriptionKey| seen.contains(k) <==> goal.contains(k) by {
                if seen.contains(k) {
                    assert(self.counted_before(i as int, user_id, device_id, k));
                    let j = choose|j: int|
                        0 <= j < i && j < self.rows@.len() && key_of(#[trigger] self.rows@[j])
                            == k && self.rows@[j].removed_at is None && k.user_id == user_id && (
                        device_id matches Some(d) ==> k.device_id == d);
                    self.lemma_row(j);
                }
                if goal.contains(k) {
                    let c = self.lemma_present(k);
                    assert(key_of(self.rows@[c]) == k);
                    assert(self.counted_before(i as int, user_id, device_id, k));
                }
            }
            assert(seen =~= goal);
        }
        if (n as u128) > (i64::MAX as u128) {
            i64::MAX
        } else {
            n as i64
        }
    }

    proof fn lemma_rows(&self)
        requires
            self.wf(),
        ensures
            rows_of_log(self.rows@, self@),
    {
        assert forall|i: int| 0 <= i < self.rows@.len() implies self@.contains_key(
            key_of(#[trigger] self.rows@[i]),
        ) && self@[key_of(self.rows@[i])] == times_of(self.rows@[i]) by {
            self.lemma_row(i);
        }
        assert forall|k: SubscriptionKey| #[trigger] self@.contains_key(k) implies exists|i: int|
            0 <= i < self.rows@.len() && key_of(self.rows@[i]) == k by {
            let c = self.lemma_present(k);
        }
    }

    /// The log that holds the given rows, if no two of them have the same
    /// key.
    pub fn from_rows(rows: Vec<Subscription>) -> (r: Option<SubscriptionRepository>)
        ensures
            match r {
                Some(repo) => repo.wf() && rows_of_log(rows@, repo@),
                None => !distinct_keys(rows@),
            },
    {
        let mut j: usize = 0;
        while j < rows.len()
            invariant
                j <= rows@.len(),
                distinct_keys(rows@.take(j as int)),
            decreases rows@.len() - j,
        {
            let mut i: usize = 0;
            while i < j
                invariant
                    i <= j < rows@.len(),
                    forall|k: int| 0 <= k < i ==> key_of(rows@[k]) != key_of(rows@[j as int]),
                decreases j - i,
            {
                if rows[i].user_id == rows[j].user_id && rows[i].device_id == rows[j].device_id
                    && rows[i].podcast_url == rows[j].podcast_url {
                    return None;
                }
                i += 1;
            }
            proof {
                let before = rows@.take(j as int);
                let after = rows@.take(j + 1);
                assert forall|a: int, b: int| 0 <= a < b < after.len() implies key_of(after[a])
                    != key_of(after[b]) by {
                    if b < j {
                        assert(before[a] == after[a] && before[b] == after[b]);
                    }
                }
            }
            j += 1;
        }
        proof {
            assert(rows@.take(rows@.len() as int) =~= rows@);
        }
        let repo = SubscriptionRepository { rows };
        proof {
            repo.lemma_rows();
        }
        Some(repo)
    }

    /// All rows of the log.
    pub fn rows(&self) -> (r: Vec<Subscription>)
        requires
            self.wf(),
        ensures
            rows_of_log(r@, self@),
    {
        let mut out: Vec<Subscription> = Vec::new();
        let mut i: usize = 0;
        while i < self.rows.len()
            invariant
                i <= self.rows@.len(),
                out@ == self.rows@.take(i as int),
            decreases self.rows@.len() - i,
        {
            out.push(self.rows[i].clone());
            proof {
                assert(out@ =~= self.rows@.take(i + 1));
            }
            i += 1;
        }
        proof {
            assert(self.rows@.take(self.rows@.len() as int) =~= self.rows@);
            self.lemma_rows();
        }
        out
    }
}

} // verus!
