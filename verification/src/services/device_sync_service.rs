//! Synchronisation groups as a client sees them: reading the grouping of a
//! user's devices, and changing it by merging and detaching devices.

use vstd::prelude::*;
use crate::error::AppError;
use crate::models::{Device, DeviceSyncStatus};
use crate::ordered::{ascending, enumerates, lemma_ascending_enumerates, lemma_ascending_is};
use crate::repository::device_repository::{
    devices_of,
    find_id,
    find_named,
    has_id,
    is_named,
    lemma_find_id,
    rows_wf,
    DeviceRepository,
};
use crate::repository::device_sync_repository::{DeviceSyncRepository, SyncState};
use crate::table::keys_of;
use crate::text::{nested_views, views};

verus! {

/// The names of those of the devices `ids` that belong to `user`, in the
/// order of `ids`.
pub open spec fn names_of(rows: Seq<Device>, user: i64, ids: Seq<i64>) -> Seq<Seq<char>>
    decreases ids.len(),
{
    if ids.len() == 0 {
        Seq::empty()
    } else {
        let rest = names_of(rows, user, ids.drop_last());
        match find_id(rows, ids.last()) {
            Some(d) => if d.user_id == user {
                rest.push(d.device_id@)
            } else {
                rest
            },
            None => rest,
        }
    }
}

/// The names of the devices of `user` in group `g`, by ascending device key.
pub open spec fn group_names(rows: Seq<Device>, user: i64, s: SyncState, g: i64) -> Seq<Seq<char>> {
    names_of(rows, user, ascending(keys_of(s.membership, g)))
}

/// Group `g` is shown as synchronized: it holds two or more devices of `user`.
pub open spec fn is_visible(rows: Seq<Device>, user: i64, s: SyncState, g: i64) -> bool {
    group_names(rows, user, s, g).len() >= 2
}

/// The member lists of those of the groups `gs` that are shown, in the order
/// of `gs`.
pub open spec fn visible_groups(rows: Seq<Device>, user: i64, s: SyncState, gs: Seq<i64>) -> Seq<
    Seq<Seq<char>>,
>
    decreases gs.len(),
{
    if gs.len() == 0 {
        Seq::empty()
    } else {
        let rest = visible_groups(rows, user, s, gs.drop_last());
        if is_visible(rows, user, s, gs.last()) {
            rest.push(group_names(rows, user, s, gs.last()))
        } else {
            rest
        }
    }
}

/// Device `d` is in a group of `user` that is shown as synchronized.
pub open spec fn is_synced(rows: Seq<Device>, user: i64, s: SyncState, d: i64) -> bool {
    &&& s.membership.contains_key(d)
    &&& s.groups.contains_key(s.membership[d])
    &&& s.groups[s.membership[d]] == user
    &&& is_visible(rows, user, s, s.membership[d])
}

/// The names of those of the devices `devs` that are in no shown group, in
/// the order of `devs`.
pub open spec fn unsynced_names(rows: Seq<Device>, user: i64, s: SyncState, devs: Seq<Device>) -> Seq<
    Seq<char>,
>
    decreases devs.len(),
{
    if devs.len() == 0 {
        Seq::empty()
    } else {
        let rest = unsynced_names(rows, user, s, devs.drop_last());
        if is_synced(rows, user, s, devs.last().id) {
            rest
        } else {
            rest.push(devs.last().device_id@)
        }
    }
}

/// The synchronized part of a user's status: one member list for each of the
/// user's groups that holds two or more devices, by ascending group id.
pub open spec fn synchronized_of(rows: Seq<Device>, user: i64, s: SyncState) -> Seq<Seq<Seq<char>>> {
    visible_groups(rows, user, s, ascending(keys_of(s.groups, user)))
}

/// The other part of a user's status: the user's devices that are in no such
/// group, in the order in which they were registered.
pub open spec fn not_synchronized_of(rows: Seq<Device>, user: i64, s: SyncState) -> Seq<Seq<char>> {
    unsynced_names(rows, user, s, devices_of(rows, user).reverse())
}

/// The key of the device that `user` calls `name`, if there is one.
pub open spec fn resolve(rows: Seq<Device>, user: i64, name: Seq<char>) -> Option<i64> {
    match find_named(rows, user, name) {
        Some(d) => Some(d.id),
        None => None,
    }
}

/// The memberships after the devices called `names` were detached, one
/// after the other; a name that `user` has no device for is passed over.
pub open spec fn after_stops(
    rows: Seq<Device>,
    user: i64,
    membership: Map<i64, i64>,
    names: Seq<Seq<char>>,
) -> Map<i64, i64>
    decreases names.len(),
{
    if names.len() == 0 {
        membership
    } else {
        let prev = after_stops(rows, user, membership, names.drop_last());
        match resolve(rows, user, names.last()) {
            Some(id) => prev.remove(id),
            None => prev,
        }
    }
}

/// The names are those of two or more devices: not all of them are the
/// same.
pub open spec fn names_several(names: Seq<Seq<char>>) -> bool {
    exists|i: int| 0 <= i < names.len() && #[trigger] names[i] != names[0]
}

/// The first of `names` that `user` has no device for.
pub open spec fn unknown_in(rows: Seq<Device>, user: i64, names: Seq<Seq<char>>) -> Option<
    Seq<char>,
>
    decreases names.len(),
{
    if names.len() == 0 {
        None
    } else {
        match unknown_in(rows, user, names.drop_last()) {
            Some(n) => Some(n),
            None => if resolve(rows, user, names.last()) is None {
                Some(names.last())
            } else {
                None
            },
        }
    }
}

/// The first unknown device name in the requests that name two or more
/// devices. A request that names one device several times names one device.
pub open spec fn first_unknown(rows: Seq<Device>, user: i64, requests: Seq<Seq<Seq<char>>>) -> Option<
    Seq<char>,
>
    decreases requests.len(),
{
    if requests.len() == 0 {
        None
    } else {
        match first_unknown(rows, user, requests.drop_last()) {
            Some(n) => Some(n),
            None => if names_several(requests.last()) {
                unknown_in(rows, user, requests.last())
            } else {
                None
            },
        }
    }
}

/// The keys of the devices called `names`, which must all be known.
pub open spec fn resolved(rows: Seq<Device>, user: i64, names: Seq<Seq<char>>) -> Seq<i64> {
    Seq::new(names.len(), |i: int| resolve(rows, user, names[i]).unwrap())
}

/// One of the first `bound` devices of `ids` is in group `g`.
pub open spec fn in_existing(membership: Map<i64, i64>, ids: Seq<i64>, bound: int, g: i64) -> bool {
    exists|i: int|
        0 <= i < bound && i < ids.len() && membership.contains_key(#[trigger] ids[i])
            && membership[ids[i]] == g
}

/// The groups that hold one or more of the devices `ids`.
pub open spec fn existing_groups(membership: Map<i64, i64>, ids: Seq<i64>) -> Set<i64> {
    Set::new(|g: i64| in_existing(membership, ids, ids.len() as int, g))
}

/// One or more of the devices `ids` is in a group.
pub open spec fn has_existing(membership: Map<i64, i64>, ids: Seq<i64>) -> bool {
    exists|g: i64| existing_groups(membership, ids).contains(g)
}

/// `t` is the smallest member of `s`.
pub open spec fn is_lowest(t: i64, s: Set<i64>) -> bool {
    s.contains(t) && forall|g: i64| s.contains(g) ==> t <= g
}

/// The smallest member of `s`.
pub open spec fn lowest(s: Set<i64>) -> i64 {
    choose|t: i64| is_lowest(t, s)
}

/// The group that the devices `ids` are gathered in: the one with the lowest
/// id among the groups that already hold one of them, or else a new group.
pub open spec fn target_of(s: SyncState, ids: Seq<i64>) -> i64 {
    if has_existing(s.membership, ids) {
        lowest(existing_groups(s.membership, ids))
    } else {
        s.next_group_id as i64
    }
}

/// The store after the devices `ids` of `user` were synchronized with each
/// other: the groups that held any of them are merged into the target group,
/// all of their members move there, and so do the devices `ids` themselves.
pub open spec fn merged(s: SyncState, user: i64, ids: Seq<i64>) -> SyncState {
    let ex = existing_groups(s.membership, ids);
    let t = target_of(s, ids);
    SyncState {
        groups: Map::new(
            |g: i64|
                (s.groups.contains_key(g) && !(ex.contains(g) && g != t)) || (g == t
                    && !has_existing(s.membership, ids)),
            |g: i64|
                if s.groups.contains_key(g) {
                    s.groups[g]
                } else {
                    user
                },
        ),
        membership: Map::new(
            |d: i64| s.membership.contains_key(d) || ids.contains(d),
            |d: i64|
                if ids.contains(d) || ex.contains(s.membership[d]) {
                    t
                } else {
                    s.membership[d]
                },
        ),
        next_group_id: if has_existing(s.membership, ids) {
            s.next_group_id
        } else {
            s.next_group_id + 1
        },
    }
}

/// The store after each of the requests that name two or more devices was
/// carried out, in order. Every name in those requests must be known.
pub open spec fn after_requests(
    rows: Seq<Device>,
    user: i64,
    s: SyncState,
    requests: Seq<Seq<Seq<char>>>,
) -> SyncState
    decreases requests.len(),
{
    if requests.len() == 0 {
        s
    } else {
        let prev = after_requests(rows, user, s, requests.drop_last());
        if names_several(requests.last()) {
            merged(prev, user, resolved(rows, user, requests.last()))
        } else {
            prev
        }
    }
}

/// The store after a whole update: first the detaching, then the merging.
pub open spec fn updated(
    rows: Seq<Device>,
    user: i64,
    s: SyncState,
    requests: Seq<Seq<Seq<char>>>,
    stops: Seq<Seq<char>>,
) -> SyncState {
    after_requests(
        rows,
        user,
        SyncState {
            groups: s.groups,
            membership: after_stops(rows, user, s.membership, stops),
            next_group_id: s.next_group_id,
        },
        requests,
    )
}

/// The reason given when a request names a device that the user does not have.
pub open spec fn not_found_message(name: Seq<char>) -> Seq<char> {
    "Device '"@ + name + "' not found"@
}

/// Where no name is unknown, every name resolves.
pub proof fn lemma_all_known(rows: Seq<Device>, user: i64, names: Seq<Seq<char>>, i: int)
    requires
        unknown_in(rows, user, names) is None,
        0 <= i < names.len(),
    ensures
        resolve(rows, user, names[i]) is Some,
    decreases names.len(),
{
    if i < names.len() - 1 {
        lemma_all_known(rows, user, names.drop_last(), i);
    }
}

/// Where no request has an unknown name, none of its parts has one.
pub proof fn lemma_requests_known(
    rows: Seq<Device>,
    user: i64,
    requests: Seq<Seq<Seq<char>>>,
    k: int,
)
    requires
        first_unknown(rows, user, requests) is None,
        0 <= k < requests.len(),
        names_several(requests[k]),
    ensures
        unknown_in(rows, user, requests[k]) is None,
    decreases requests.len(),
{
    if k < requests.len() - 1 {
        lemma_requests_known(rows, user, requests.drop_last(), k);
    }
}

/// A name found unknown at the end of a first part is the first unknown one
/// of the whole list, when the part before it holds none.
pub proof fn lemma_unknown_prefix(rows: Seq<Device>, user: i64, names: Seq<Seq<char>>, n: int)
    requires
        0 <= n <= names.len(),
        unknown_in(rows, user, names.take(n)) is Some,
    ensures
        unknown_in(rows, user, names) == unknown_in(rows, user, names.take(n)),
    decreases names.len() - n,
{
    if n < names.len() {
        assert(names.take(n + 1).drop_last() =~= names.take(n));
        lemma_unknown_prefix(rows, user, names, n + 1);
    } else {
        assert(names.take(n) =~= names);
    }
}

/// The same for a list of requests.
pub proof fn lemma_first_unknown_prefix(
    rows: Seq<Device>,
    user: i64,
    requests: Seq<Seq<Seq<char>>>,
    n: int,
)
    requires
        0 <= n <= requests.len(),
        first_unknown(rows, user, requests.take(n)) is Some,
    ensures
        first_unknown(rows, user, requests) == first_unknown(rows, user, requests.take(n)),
    decreases requests.len() - n,
{
    if n < requests.len() {
        assert(requests.take(n + 1).drop_last() =~= requests.take(n));
        lemma_first_unknown_prefix(rows, user, requests, n + 1);
    } else {
        assert(requests.take(n) =~= requests);
    }
}

/// A list holds what its first part holds and the element behind that part.
pub proof fn lemma_take_contains(s: Seq<i64>, j: int, x: i64)
    requires
        0 <= j < s.len(),
    ensures
        s.take(j + 1).contains(x) <==> s.take(j).contains(x) || s[j] == x,
{
    let longer = s.take(j + 1);
    let shorter = s.take(j);
    if longer.contains(x) {
        let a = choose|a: int| 0 <= a < longer.len() && longer[a] == x;
        if a < j {
            assert(shorter[a] == x);
        }
    }
    if shorter.contains(x) {
        let a = choose|a: int| 0 <= a < shorter.len() && shorter[a] == x;
        assert(longer[a] == x);
    }
    if s[j] == x {
        assert(s.take(j + 1)[j] == x);
    }
}

fn contains_id(v: &Vec<i64>, x: i64) -> (r: bool)
    ensures
        r == v@.contains(x),
{
    let mut i: usize = 0;
    while i < v.len()
        invariant
            i <= v@.len(),
            forall|j: int| 0 <= j < i ==> v@[j] != x,
        decreases v@.len() - i,
    {
        if v[i] == x {
            return true;
        }
        i += 1;
    }
    false
}

/// Synchronizing gathers: after the devices `ids` were synchronized, each of
/// them is in the target group, and two devices that shared a group before
/// still share one.
pub proof fn lemma_merged_gathers(s: SyncState, user: i64, ids: Seq<i64>)
    ensures
        forall|d: i64|
            ids.contains(d) ==> #[trigger] merged(s, user, ids).membership.contains_key(d)
                && merged(s, user, ids).membership[d] == target_of(s, ids),
        forall|a: i64, b: i64|
            s.membership.contains_key(a) && s.membership.contains_key(b) && s.membership[a]
                == s.membership[b] ==> merged(s, user, ids).membership.contains_key(a) && merged(
                s,
                user,
                ids,
            ).membership.contains_key(b) && #[trigger] merged(s, user, ids).membership[a]
                == #[trigger] merged(s, user, ids).membership[b],
{
    let ex = existing_groups(s.membership, ids);
    assert forall|a: i64, b: i64|
        s.membership.contains_key(a) && s.membership.contains_key(b) && s.membership[a]
            == s.membership[b] implies #[trigger] merged(s, user, ids).membership[a]
        == #[trigger] merged(s, user, ids).membership[b] by {
        if ids.contains(a) {
            let i = choose|i: int| 0 <= i < ids.len() && ids[i] == a;
            assert(in_existing(s.membership, ids, ids.len() as int, s.membership[ids[i]]));
        }
        if ids.contains(b) {
            let i = choose|i: int| 0 <= i < ids.len() && ids[i] == b;
            assert(in_existing(s.membership, ids, ids.len() as int, s.membership[ids[i]]));
        }
    }
}

/// Synchronizing is transitive: after `d1` was synchronized with `d2`, and
/// then `d2` with `d3`, the three devices are in one group.
pub proof fn lemma_merge_transitive(s: SyncState, user: i64, d1: i64, d2: i64, d3: i64)
    ensures
        ({
            let last = merged(merged(s, user, seq![d1, d2]), user, seq![d2, d3]).membership;
            &&& last.contains_key(d1)
            &&& last.contains_key(d2)
            &&& last.contains_key(d3)
            &&& last[d1] == last[d2]
            &&& last[d2] == last[d3]
        }),
{
    let first = seq![d1, d2];
    let second = seq![d2, d3];
    let s1 = merged(s, user, first);
    assert(first[0] == d1 && first[1] == d2);
    assert(second[0] == d2 && second[1] == d3);
    assert(first.contains(d1) && first.contains(d2));
    assert(second.contains(d2) && second.contains(d3));
    lemma_merged_gathers(s, user, first);
    assert(s1.membership[d1] == s1.membership[d2]);
    lemma_merged_gathers(s1, user, second);
}

/// Starting from a store in which none of three devices is in a group,
/// synchronizing `d1` with `d2` and then `d2` with `d3` leaves one new group
/// that holds exactly the three.
pub proof fn lemma_merge_transitive_fresh(s: SyncState, user: i64, d1: i64, d2: i64, d3: i64)
    requires
        s.next_group_id < i64::MAX,
        forall|d: i64| #[trigger]
            s.membership.contains_key(d) ==> s.membership[d] < s.next_group_id,
        !s.membership.contains_key(d1),
        !s.membership.contains_key(d2),
        !s.membership.contains_key(d3),
    ensures
        ({
            let last = merged(merged(s, user, seq![d1, d2]), user, seq![d2, d3]);
            let g = s.next_group_id as i64;
            &&& keys_of(last.membership, g) == set![d1, d2, d3]
            &&& last.next_group_id == s.next_group_id + 1
            &&& forall|d: i64|
                s.membership.contains_key(d) ==> #[trigger] last.membership.contains_key(d)
                    && last.membership[d] == s.membership[d]
        }),
{
    let first = seq![d1, d2];
    let second = seq![d2, d3];
    let g = s.next_group_id as i64;
    assert(first[0] == d1 && first[1] == d2);
    assert(second[0] == d2 && second[1] == d3);
    assert(first.contains(d1) && first.contains(d2));
    assert(second.contains(d2) && second.contains(d3));
    assert forall|x: i64| !existing_groups(s.membership, first).contains(x) by {
        if in_existing(s.membership, first, first.len() as int, x) {
            let i = choose|i: int|
                0 <= i < first.len() && s.membership.contains_key(#[trigger] first[i])
                    && s.membership[first[i]] == x;
            assert(first[i] == d1 || first[i] == d2);
        }
    }
    assert(!has_existing(s.membership, first));
    let s1 = merged(s, user, first);
    assert(s1.membership.contains_key(d2) && s1.membership[d2] == g);
    let ex = existing_groups(s1.membership, second);
    assert(in_existing(s1.membership, second, second.len() as int, g)) by {
        assert(s1.membership.contains_key(second[0]) && s1.membership[second[0]] == g);
    }
    assert(ex.contains(g));
    assert forall|x: i64| ex.contains(x) implies x == g by {
        let i = choose|i: int|
            0 <= i < second.len() && s1.membership.contains_key(#[trigger] second[i])
                && s1.membership[second[i]] == x;
        assert(second[i] == d2 || second[i] == d3);
        if second[i] == d3 && d3 != d1 && d3 != d2 {
            assert(!first.contains(d3)) by {
                if first.contains(d3) {
                    let a = choose|a: int| 0 <= a < first.len() && first[a] == d3;
                }
            }
        }
    }
    assert(has_existing(s1.membership, second));
    assert(is_lowest(g, ex));
    let c = lowest(ex);
    assert(is_lowest(c, ex));
    assert(c == g);
    let last = merged(s1, user, second);
    assert forall|d: i64| keys_of(last.membership, g).contains(d) <==> set![d1, d2, d3].contains(
        d,
    ) by {
        if keys_of(last.membership, g).contains(d) && d != d1 && d != d2 && d != d3 {
            assert(!first.contains(d)) by {
                if first.contains(d) {
                    let a = choose|a: int| 0 <= a < first.len() && first[a] == d;
                }
            }
            assert(!second.contains(d)) by {
                if second.contains(d) {
                    let a = choose|a: int| 0 <= a < second.len() && second[a] == d;
                }
            }
        }
    }
    assert(keys_of(last.membership, g) =~= set![d1, d2, d3]);
    assert forall|d: i64| s.membership.contains_key(d) implies #[trigger]
        last.membership.contains_key(d) && last.membership[d] == s.membership[d] by {
        assert(!first.contains(d)) by {
            if first.contains(d) {
                let a = choose|a: int| 0 <= a < first.len() && first[a] == d;
            }
        }
        assert(!second.contains(d)) by {
            if second.contains(d) {
                let a = choose|a: int| 0 <= a < second.len() && second[a] == d;
            }
        }
    }
}

/// Device `id` belongs to `user`, who calls it `n`.
pub open spec fn named_by(rows: Seq<Device>, user: i64, id: i64, n: Seq<char>) -> bool {
    find_id(rows, id) matches Some(d) && d.user_id == user && d.device_id@ == n
}

/// `user` has a device called `n`.
pub open spec fn owns(rows: Seq<Device>, user: i64, n: Seq<char>) -> bool {
    exists|i: int| is_named(rows, user, n, i)
}

/// One of the lists holds `n`.
pub open spec fn in_some_list(lists: Seq<Seq<Seq<char>>>, n: Seq<char>) -> bool {
    exists|k: int| 0 <= k < lists.len() && (#[trigger] lists[k]).contains(n)
}

/// In a consistent directory, a device found by its key is the row with
/// that key.
pub proof fn lemma_named_by(rows: Seq<Device>, user: i64, id: i64, n: Seq<char>)
    requires
        rows_wf(rows),
    ensures
        named_by(rows, user, id, n) <==> exists|i: int|
            is_named(rows, user, n, i) && rows[i].id == id,
{
    if named_by(rows, user, id, n) {
        let c = choose|c: int| has_id(rows, id, c);
        assert(is_named(rows, user, n, c) && rows[c].id == id);
    }
    if exists|i: int| is_named(rows, user, n, i) && rows[i].id == id {
        let i = choose|i: int| is_named(rows, user, n, i) && rows[i].id == id;
        assert(has_id(rows, id, i));
        lemma_find_id(rows, id, i);
    }
}

/// The names of a list of devices are the names of those of them that
/// belong to the user.
pub proof fn lemma_names_of(rows: Seq<Device>, user: i64, ids: Seq<i64>, n: Seq<char>)
    ensures
        names_of(rows, user, ids).contains(n) <==> exists|j: int|
            0 <= j < ids.len() && named_by(rows, user, #[trigger] ids[j], n),
    decreases ids.len(),
{
    if ids.len() == 0 {
        assert(!names_of(rows, user, ids).contains(n));
    } else {
        let init = ids.drop_last();
        let rest = names_of(rows, user, init);
        let all = names_of(rows, user, ids);
        lemma_names_of(rows, user, init, n);
        if rest.contains(n) {
            let a = choose|a: int| 0 <= a < rest.len() && rest[a] == n;
            assert(all[a] == n);
            let j = choose|j: int| 0 <= j < init.len() && named_by(rows, user, #[trigger] init[j], n);
            assert(named_by(rows, user, ids[j], n));
        }
        if all.contains(n) && !rest.contains(n) {
            let a = choose|a: int| 0 <= a < all.len() && all[a] == n;
            if a < rest.len() {
                assert(rest[a] == n);
            }
            assert(named_by(rows, user, ids[ids.len() - 1], n));
        }
        if exists|j: int| 0 <= j < ids.len() && named_by(rows, user, #[trigger] ids[j], n) {
            let j = choose|j: int| 0 <= j < ids.len() && named_by(rows, user, #[trigger] ids[j], n);
            if j < init.len() {
                assert(named_by(rows, user, init[j], n));
            } else {
                assert(all[all.len() - 1] == n);
            }
        }
    }
}

/// The shown member lists are those of the shown groups.
pub proof fn lemma_visible_groups(
    rows: Seq<Device>,
    user: i64,
    s: SyncState,
    gs: Seq<i64>,
    k: int,
) -> (j: int)
    requires
        0 <= k < visible_groups(rows, user, s, gs).len(),
    ensures
        0 <= j < gs.len(),
        is_visible(rows, user, s, gs[j]),
        visible_groups(rows, user, s, gs)[k] == group_names(rows, user, s, gs[j]),
    decreases gs.len(),
{
    let init = gs.drop_last();
    let rest = visible_groups(rows, user, s, init);
    if k < rest.len() {
        lemma_visible_groups(rows, user, s, init, k)
    } else {
        gs.len() - 1
    }
}

/// Two shown member lists come from two groups, in the order of the groups.
pub proof fn lemma_visible_pair(
    rows: Seq<Device>,
    user: i64,
    s: SyncState,
    gs: Seq<i64>,
    k1: int,
    k2: int,
) -> (j: (int, int))
    requires
        0 <= k1 < k2 < visible_groups(rows, user, s, gs).len(),
    ensures
        0 <= j.0 < j.1 < gs.len(),
        visible_groups(rows, user, s, gs)[k1] == group_names(rows, user, s, gs[j.0]),
        visible_groups(rows, user, s, gs)[k2] == group_names(rows, user, s, gs[j.1]),
    decreases gs.len(),
{
    let init = gs.drop_last();
    let rest = visible_groups(rows, user, s, init);
    if k2 < rest.len() {
        lemma_visible_pair(rows, user, s, init, k1, k2)
    } else {
        let a = lemma_visible_groups(rows, user, s, init, k1);
        (a, gs.len() - 1)
    }
}

/// The member list of each shown group is among the shown member lists.
pub proof fn lemma_visible_shown(rows: Seq<Device>, user: i64, s: SyncState, gs: Seq<i64>, j: int) -> (k:
    int)
    requires
        0 <= j < gs.len(),
        is_visible(rows, user, s, gs[j]),
    ensures
        0 <= k < visible_groups(rows, user, s, gs).len(),
        visible_groups(rows, user, s, gs)[k] == group_names(rows, user, s, gs[j]),
    decreases gs.len(),
{
    let init = gs.drop_last();
    let rest = visible_groups(rows, user, s, init);
    if j < gs.len() - 1 {
        let k = lemma_visible_shown(rows, user, s, init, j);
        k
    } else {
        rest.len() as int
    }
}

/// The names listed as not synchronized are those of the listed devices
/// that are in no shown group.
pub proof fn lemma_unsynced(
    rows: Seq<Device>,
    user: i64,
    s: SyncState,
    devs: Seq<Device>,
    n: Seq<char>,
)
    ensures
        unsynced_names(rows, user, s, devs).contains(n) <==> exists|j: int|
            0 <= j < devs.len() && (#[trigger] devs[j]).device_id@ == n && !is_synced(
                rows,
                user,
                s,
                devs[j].id,
            ),
    decreases devs.len(),
{
    if devs.len() == 0 {
        assert(!unsynced_names(rows, user, s, devs).contains(n));
    } else {
        let init = devs.drop_last();
        let rest = unsynced_names(rows, user, s, init);
        let all = unsynced_names(rows, user, s, devs);
        lemma_unsynced(rows, user, s, init, n);
        if rest.contains(n) {
            let a = choose|a: int| 0 <= a < rest.len() && rest[a] == n;
            assert(all[a] == n);
            let j = choose|j: int|
                0 <= j < init.len() && (#[trigger] init[j]).device_id@ == n && !is_synced(
                    rows,
                    user,
                    s,
                    init[j].id,
                );
            assert(devs[j].device_id@ == n);
        }
        if all.contains(n) && !rest.contains(n) {
            let a = choose|a: int| 0 <= a < all.len() && all[a] == n;
            if a < rest.len() {
                assert(rest[a] == n);
            }
            assert(devs[devs.len() - 1].device_id@ == n);
        }
        if exists|j: int|
            0 <= j < devs.len() && (#[trigger] devs[j]).device_id@ == n && !is_synced(
                rows,
                user,
                s,
                devs[j].id,
            ) {
            let j = choose|j: int|
                0 <= j < devs.len() && (#[trigger] devs[j]).device_id@ == n && !is_synced(
                    rows,
                    user,
                    s,
                    devs[j].id,
                );
            if j < init.len() {
                assert(init[j].device_id@ == n);
            } else {
                assert(all[all.len() - 1] == n);
            }
        }
    }
}

/// The devices of a user are the rows that bear the user's id.
pub proof fn lemma_devices_of(rows: Seq<Device>, user: i64, d: Device)
    ensures
        devices_of(rows, user).contains(d) <==> exists|i: int|
            0 <= i < rows.len() && #[trigger] rows[i] == d && d.user_id == user,
    decreases rows.len(),
{
    if rows.len() == 0 {
        assert(!devices_of(rows, user).contains(d));
    } else {
        let init = rows.drop_last();
        let rest = devices_of(init, user);
        let all = devices_of(rows, user);
        lemma_devices_of(init, user, d);
        let shift: int = if rows.last().user_id == user {
            1
        } else {
            0
        };
        if rest.contains(d) {
            let a = choose|a: int| 0 <= a < rest.len() && rest[a] == d;
            assert(all[a + shift] == d);
            let i = choose|i: int| 0 <= i < init.len() && #[trigger] init[i] == d && d.user_id == user;
            assert(rows[i] == d);
        }
        if all.contains(d) && !rest.contains(d) {
            let a = choose|a: int| 0 <= a < all.len() && all[a] == d;
            if a >= shift {
                assert(rest[a - shift] == d);
            }
            assert(rows[rows.len() - 1] == d);
        }
        if exists|i: int| 0 <= i < rows.len() && #[trigger] rows[i] == d && d.user_id == user {
            let i = choose|i: int|
                0 <= i < rows.len() && #[trigger] rows[i] == d && d.user_id == user;
            if i < init.len() {
                assert(init[i] == d);
            } else {
                assert(all[0] == d);
            }
        }
    }
}

/// A name is in the member list of a group exactly when the user has a
/// device of that name in the group.
pub proof fn lemma_in_group(rows: Seq<Device>, user: i64, s: SyncState, g: i64, n: Seq<char>)
    requires
        s.membership.dom().finite(),
    ensures
        group_names(rows, user, s, g).contains(n) <==> exists|d: i64|
            s.membership.contains_key(d) && s.membership[d] == g && #[trigger] named_by(
                rows,
                user,
                d,
                n,
            ),
{
    let members = keys_of(s.membership, g);
    assert(members.subset_of(s.membership.dom()));
    vstd::set_lib::lemma_set_subset_finite(s.membership.dom(), members);
    lemma_ascending_enumerates(members);
    let ids = ascending(members);
    lemma_names_of(rows, user, ids, n);
    if group_names(rows, user, s, g).contains(n) {
        let j = choose|j: int| 0 <= j < ids.len() && named_by(rows, user, #[trigger] ids[j], n);
        assert(ids.contains(ids[j]));
        assert(members.contains(ids[j]));
    }
    if exists|d: i64|
        s.membership.contains_key(d) && s.membership[d] == g && #[trigger] named_by(
            rows,
            user,
            d,
            n,
        ) {
        let d = choose|d: i64|
            s.membership.contains_key(d) && s.membership[d] == g && #[trigger] named_by(
                rows,
                user,
                d,
                n,
            );
        assert(members.contains(d));
        assert(ids.contains(d));
        let j = choose|j: int| 0 <= j < ids.len() && ids[j] == d;
        assert(named_by(rows, user, ids[j], n));
    }
}

/// The status divides a user's devices. A name is in the status exactly
/// when the user has a device of that name; no name is both in a
/// synchronized list and among the devices that are not synchronized; and
/// no name is in two synchronized lists.
pub proof fn lemma_status_partition(rows: Seq<Device>, user: i64, s: SyncState)
    requires
        rows_wf(rows),
        s.groups.dom().finite(),
        s.membership.dom().finite(),
    ensures
        forall|n: Seq<char>|
            owns(rows, user, n) <==> (#[trigger] not_synchronized_of(rows, user, s).contains(n)
                || in_some_list(synchronized_of(rows, user, s), n)),
        forall|n: Seq<char>|
            !(#[trigger] not_synchronized_of(rows, user, s).contains(n) && in_some_list(
                synchronized_of(rows, user, s),
                n,
            )),
        forall|k1: int, k2: int, n: Seq<char>|
            0 <= k1 < k2 < synchronized_of(rows, user, s).len() ==> !(
            #[trigger] synchronized_of(rows, user, s)[k1].contains(n)
                && #[trigger] synchronized_of(rows, user, s)[k2].contains(n)),
{
    let sync = synchronized_of(rows, user, s);
    let rest = not_synchronized_of(rows, user, s);
    let mine = keys_of(s.groups, user);
    assert(mine.subset_of(s.groups.dom()));
    vstd::set_lib::lemma_set_subset_finite(s.groups.dom(), mine);
    lemma_ascending_enumerates(mine);
    let gs = ascending(mine);
    let devs = devices_of(rows, user).reverse();
    assert forall|d: Device| devs.contains(d) <==> devices_of(rows, user).contains(d) by {
        let plain = devices_of(rows, user);
        if devs.contains(d) {
            let j = choose|j: int| 0 <= j < devs.len() && devs[j] == d;
            assert(plain[plain.len() - 1 - j] == d);
        }
        if plain.contains(d) {
            let j = choose|j: int| 0 <= j < plain.len() && plain[j] == d;
            assert(devs[plain.len() - 1 - j] == d);
        }
    }
    assert forall|n: Seq<char>| #[trigger]
        rest.contains(n) <==> exists|i: int|
            is_named(rows, user, n, i) && !is_synced(rows, user, s, rows[i].id) by {
        lemma_unsynced(rows, user, s, devs, n);
        if rest.contains(n) {
            let j = choose|j: int|
                0 <= j < devs.len() && (#[trigger] devs[j]).device_id@ == n && !is_synced(
                    rows,
                    user,
                    s,
                    devs[j].id,
                );
            assert(devs.contains(devs[j]));
            lemma_devices_of(rows, user, devs[j]);
            let i = choose|i: int|
                0 <= i < rows.len() && #[trigger] rows[i] == devs[j] && devs[j].user_id == user;
            assert(is_named(rows, user, n, i));
        }
        if exists|i: int| is_named(rows, user, n, i) && !is_synced(rows, user, s, rows[i].id) {
            let i = choose|i: int|
                is_named(rows, user, n, i) && !is_synced(rows, user, s, rows[i].id);
            lemma_devices_of(rows, user, rows[i]);
            assert(devs.contains(rows[i]));
            let j = choose|j: int| 0 <= j < devs.len() && devs[j] == rows[i];
            assert(devs[j].device_id@ == n);
        }
    }
    assert forall|n: Seq<char>| #[trigger]
        in_some_list(sync, n) <==> exists|i: int|
            is_named(rows, user, n, i) && is_synced(rows, user, s, rows[i].id) by {
        if in_some_list(sync, n) {
            let k = choose|k: int| 0 <= k < sync.len() && (#[trigger] sync[k]).contains(n);
            let j = lemma_visible_groups(rows, user, s, gs, k);
            let g = gs[j];
            assert(gs.contains(g));
            assert(mine.contains(g));
            lemma_in_group(rows, user, s, g, n);
            let d = choose|d: i64|
                s.membership.contains_key(d) && s.membership[d] == g && #[trigger] named_by(
                    rows,
                    user,
                    d,
                    n,
                );
            lemma_named_by(rows, user, d, n);
            let i = choose|i: int| is_named(rows, user, n, i) && rows[i].id == d;
            assert(is_synced(rows, user, s, rows[i].id));
        }
        if exists|i: int| is_named(rows, user, n, i) && is_synced(rows, user, s, rows[i].id) {
            let i = choose|i: int|
                is_named(rows, user, n, i) && is_synced(rows, user, s, rows[i].id);
            let d = rows[i].id;
            let g = s.membership[d];
            assert(mine.contains(g));
            assert(gs.contains(g));
            let j = choose|j: int| 0 <= j < gs.len() && gs[j] == g;
            let k = lemma_visible_shown(rows, user, s, gs, j);
            lemma_named_by(rows, user, d, n);
            assert(named_by(rows, user, d, n));
            lemma_in_group(rows, user, s, g, n);
            assert(sync[k].contains(n));
        }
    }
    assert forall|n: Seq<char>|
        owns(rows, user, n) <==> (#[trigger] rest.contains(n) || in_some_list(sync, n)) by {
        if owns(rows, user, n) {
            let i = choose|i: int| is_named(rows, user, n, i);
            if is_synced(rows, user, s, rows[i].id) {
                assert(in_some_list(sync, n));
            } else {
                assert(rest.contains(n));
            }
        }
    }
    assert forall|n: Seq<char>| !(#[trigger] rest.contains(n) && in_some_list(sync, n)) by {
        if rest.contains(n) && in_some_list(sync, n) {
            let a = choose|i: int|
                is_named(rows, user, n, i) && !is_synced(rows, user, s, rows[i].id);
            let b = choose|i: int|
                is_named(rows, user, n, i) && is_synced(rows, user, s, rows[i].id);
            if a < b {
            } else if b < a {
            }
        }
    }
    assert forall|k1: int, k2: int, n: Seq<char>| 0 <= k1 < k2 < sync.len() implies !(
    #[trigger] sync[k1].contains(n) && #[trigger] sync[k2].contains(n)) by {
        if sync[k1].contains(n) && sync[k2].contains(n) {
            let j = lemma_visible_pair(rows, user, s, gs, k1, k2);
            let g1 = gs[j.0];
            let g2 = gs[j.1];
            assert(g1 < g2);
            lemma_in_group(rows, user, s, g1, n);
            lemma_in_group(rows, user, s, g2, n);
            let d1 = choose|d: i64|
                s.membership.contains_key(d) && s.membership[d] == g1 && #[trigger] named_by(
                    rows,
                    user,
                    d,
                    n,
                );
            let d2 = choose|d: i64|
                s.membership.contains_key(d) && s.membership[d] == g2 && #[trigger] named_by(
                    rows,
                    user,
                    d,
                    n,
                );
            lemma_named_by(rows, user, d1, n);
            lemma_named_by(rows, user, d2, n);
            let i1 = choose|i: int| is_named(rows, user, n, i) && rows[i].id == d1;
            let i2 = choose|i: int| is_named(rows, user, n, i) && rows[i].id == d2;
            if i1 < i2 {
            } else if i2 < i1 {
            }
        }
    }
}

/// The groups that hold one or more of the devices `ids`.
fn collect_groups(repo: &DeviceSyncRepository, ids: &Vec<i64>) -> (r: Vec<i64>)
    requires
        repo.wf(),
    ensures
        forall|g: i64| r@.contains(g) <==> existing_groups(repo.membership(), ids@).contains(g),
{
    let ghost m = repo.membership();
    let mut found: Vec<i64> = Vec::new();
    let mut i: usize = 0;
    while i < ids.len()
        invariant
            repo.wf(),
            m == repo.membership(),
            i <= ids@.len(),
            forall|g: i64| found@.contains(g) <==> in_existing(m, ids@, i as int, g),
        decreases ids@.len() - i,
    {
        let ghost before = found@;
        match repo.get_device_group(ids[i]) {
            Some(group_id) => {
                found.push(group_id);
                proof {
                    assert forall|g: i64| found@.contains(g) <==> in_existing(
                        m,
                        ids@,
                        i + 1,
                        g,
                    ) by {
                        if found@.contains(g) {
                            let a = choose|a: int| 0 <= a < found@.len() && found@[a] == g;
                            if a < before.len() {
                                assert(before[a] == g);
                                assert(before.contains(g));
                                assert(in_existing(m, ids@, i as int, g));
                                let w = choose|w: int|
                                    0 <= w < i && w < ids@.len() && m.contains_key(
                                        #[trigger] ids@[w],
                                    ) && m[ids@[w]] == g;
                                assert(m.contains_key(ids@[w]) && m[ids@[w]] == g);
                            } else {
                                assert(m.contains_key(ids@[i as int]) && m[ids@[i as int]] == g);
                            }
                        }
                        if in_existing(m, ids@, i + 1, g) {
                            let w = choose|w: int|
                                0 <= w < i + 1 && w < ids@.len() && m.contains_key(
                                    #[trigger] ids@[w],
                                ) && m[ids@[w]] == g;
                            if w < i {
                                assert(m.contains_key(ids@[w]) && m[ids@[w]] == g);
                                assert(in_existing(m, ids@, i as int, g));
                                assert(before.contains(g));
                                let a = choose|a: int| 0 <= a < before.len() && before[a] == g;
                                assert(found@[a] == g);
                            } else {
                                assert(found@[before.len() as int] == g);
                            }
                        }
                    }
                }
            },
            None => {
                proof {
                    assert forall|g: i64| found@.contains(g) <==> in_existing(
                        m,
                        ids@,
                        i + 1,
                        g,
                    ) by {
                        if in_existing(m, ids@, i as int, g) {
                            let w = choose|w: int|
                                0 <= w < i && w < ids@.len() && m.contains_key(
                                    #[trigger] ids@[w],
                                ) && m[ids@[w]] == g;
                            assert(m.contains_key(ids@[w]) && m[ids@[w]] == g);
                        }
                        if in_existing(m, ids@, i + 1, g) {
                            let w = choose|w: int|
                                0 <= w < i + 1 && w < ids@.len() && m.contains_key(
                                    #[trigger] ids@[w],
                                ) && m[ids@[w]] == g;
                            assert(w < i);
                            assert(m.contains_key(ids@[w]) && m[ids@[w]] == g);
                        }
                    }
                }
            },
        }
        i += 1;
    }
    found
}

/// The smallest element of a list that is not empty.
fn lowest_of(v: &Vec<i64>) -> (r: i64)
    requires
        v@.len() > 0,
    ensures
        v@.contains(r),
        forall|i: int| 0 <= i < v@.len() ==> r <= v@[i],
{
    let mut best: i64 = v[0];
    let mut i: usize = 1;
    while i < v.len()
        invariant
            1 <= i <= v@.len(),
            v@.contains(best),
            forall|j: int| 0 <= j < i ==> best <= v@[j],
        decreases v@.len() - i,
    {
        if v[i] < best {
            best = v[i];
        }
        i += 1;
    }
    best
}

/// The groups after the groups `sources` other than `target` were deleted.
pub open spec fn groups_without(groups: Map<i64, i64>, sources: Seq<i64>, target: i64) -> Map<
    i64,
    i64,
> {
    Map::new(
        |g: i64| groups.contains_key(g) && !(sources.contains(g) && g != target),
        |g: i64| groups[g],
    )
}

/// The memberships after the members of the groups `sources` moved to `target`.
pub open spec fn moved_to(membership: Map<i64, i64>, sources: Seq<i64>, target: i64) -> Map<
    i64,
    i64,
> {
    Map::new(
        |d: i64| membership.contains_key(d),
        |d: i64|
            if sources.contains(membership[d]) {
                target
            } else {
                membership[d]
            },
    )
}

/// The memberships after the devices `ids` were put into `target`.
pub open spec fn attached_to(membership: Map<i64, i64>, ids: Seq<i64>, target: i64) -> Map<
    i64,
    i64,
> {
    Map::new(
        |d: i64| membership.contains_key(d) || ids.contains(d),
        |d: i64|
            if ids.contains(d) {
                target
            } else {
                membership[d]
            },
    )
}

/// Merges each of the groups `sources` other than `target` into `target`.
fn merge_into(repo: &mut DeviceSyncRepository, target: i64, sources: &Vec<i64>) -> (r: Result<
    (),
    AppError,
>)
    requires
        old(repo).wf(),
        old(repo).groups().contains_key(target),
    ensures
        final(repo).wf(),
        r is Ok,
        final(repo).next_group_id() == old(repo).next_group_id(),
        final(repo).groups() == groups_without(old(repo).groups(), sources@, target),
        final(repo).membership() == moved_to(old(repo).membership(), sources@, target),
{
    let ghost groups0 = repo.groups();
    let ghost m0 = repo.membership();
    let mut j: usize = 0;
    proof {
        assert(sources@.take(0) =~= Seq::<i64>::empty());
        assert(repo.groups() =~= groups_without(groups0, sources@.take(0), target));
        assert(repo.membership() =~= moved_to(m0, sources@.take(0), target));
    }
    while j < sources.len()
        invariant
            repo.wf(),
            groups0.contains_key(target),
            j <= sources@.len(),
            repo.next_group_id() == old(repo).next_group_id(),
            repo.groups() == groups_without(groups0, sources@.take(j as int), target),
            repo.membership() == moved_to(m0, sources@.take(j as int), target),
        decreases sources@.len() - j,
    {
        let source: i64 = sources[j];
        let ghost done = sources@.take(j as int);
        let ghost next = sources@.take(j + 1);
        proof {
            assert forall|x: i64| next.contains(x) <==> done.contains(x) || x == source by {
                lemma_take_contains(sources@, j as int, x);
            }
        }
        if source != target {
            match repo.merge_groups(target, source) {
                Ok(_) => {},
                Err(e) => {
                    return Err(e);
                },
            }
            proof {
                assert(repo.groups() =~= groups_without(groups0, next, target));
                assert(repo.membership() =~= moved_to(m0, next, target));
            }
        } else {
            proof {
                assert(repo.groups() =~= groups_without(groups0, next, target));
                assert(repo.membership() =~= moved_to(m0, next, target));
            }
        }
        j += 1;
    }
    proof {
        assert(sources@.take(sources@.len() as int) =~= sources@);
    }
    Ok(())
}

/// Puts each of the devices `ids` into `target`, leaving alone those that
/// are in it already.
fn attach_all(repo: &mut DeviceSyncRepository, target: i64, ids: &Vec<i64>) -> (r: Result<
    (),
    AppError,
>)
    requires
        old(repo).wf(),
        old(repo).groups().contains_key(target),
    ensures
        final(repo).wf(),
        r is Ok,
        final(repo).next_group_id() == old(repo).next_group_id(),
        final(repo).groups() == old(repo).groups(),
        final(repo).membership() == attached_to(old(repo).membership(), ids@, target),
{
    let ghost m0 = repo.membership();
    let mut j: usize = 0;
    proof {
        assert(ids@.take(0) =~= Seq::<i64>::empty());
        assert(repo.membership() =~= attached_to(m0, ids@.take(0), target));
    }
    while j < ids.len()
        invariant
            repo.wf(),
            j <= ids@.len(),
            repo.next_group_id() == old(repo).next_group_id(),
            repo.groups() == old(repo).groups(),
            repo.groups().contains_key(target),
            repo.membership() == attached_to(m0, ids@.take(j as int), target),
        decreases ids@.len() - j,
    {
        let device: i64 = ids[j];
        let ghost done = ids@.take(j as int);
        let ghost next = ids@.take(j + 1);
        proof {
            assert forall|x: i64| next.contains(x) <==> done.contains(x) || x == device by {
                lemma_take_contains(ids@, j as int, x);
            }
        }
        let placed: bool = match repo.get_device_group(device) {
            Some(current) => current == target,
            None => false,
        };
        if !placed {
            repo.remove_device_from_group(device);
            match repo.add_device_to_group(target, device) {
                Ok(_) => {},
                Err(e) => {
                    return Err(e);
                },
            }
        }
        proof {
            assert(repo.membership() =~= attached_to(m0, next, target));
        }
        j += 1;
    }
    proof {
        assert(ids@.take(ids@.len() as int) =~= ids@);
    }
    Ok(())
}

/// Synchronizes the devices `ids` of `user_id` with each other.
fn merge_devices(repo: &mut DeviceSyncRepository, user_id: i64, ids: &Vec<i64>) -> (r: Result<
    (),
    AppError,
>)
    requires
        old(repo).wf(),
        old(repo).next_group_id() < i64::MAX,
    ensures
        final(repo).wf(),
        r is Ok,
        final(repo).state() == merged(old(repo).state(), user_id, ids@),
{
    let ghost s0 = repo.state();
    let ghost ex = existing_groups(s0.membership, ids@);
    let existing: Vec<i64> = collect_groups(repo, ids);
    let target: i64 = if existing.len() == 0 {
        proof {
            assert forall|g: i64| !ex.contains(g) by {
                assert(!existing@.contains(g));
            }
            assert(!has_existing(s0.membership, ids@));
        }
        match repo.create_group(user_id) {
            Ok(id) => id,
            Err(e) => {
                return Err(e);
            },
        }
    } else {
        let t: i64 = lowest_of(&existing);
        proof {
            assert(existing@.contains(existing@[0]));
            assert(ex.contains(existing@[0]));
            assert(has_existing(s0.membership, ids@));
            assert(is_lowest(t, ex)) by {
                assert forall|g: i64| ex.contains(g) implies t <= g by {
                    assert(existing@.contains(g));
                }
            }
            let c = lowest(ex);
            assert(is_lowest(c, ex));
            assert(c == t);
            assert(in_existing(s0.membership, ids@, ids@.len() as int, t));
        }
        t
    };
    proof {
        assert(target == target_of(s0, ids@));
    }
    let ghost groups1 = repo.groups();
    match merge_into(repo, target, &existing) {
        Ok(_) => {},
        Err(e) => {
            return Err(e);
        },
    }
    let ghost m2 = repo.membership();
    match attach_all(repo, target, ids) {
        Ok(_) => {},
        Err(e) => {
            return Err(e);
        },
    }
    proof {
        let goal = merged(s0, user_id, ids@);
        assert forall|i: int| 0 <= i < ids@.len() && s0.membership.contains_key(
            #[trigger] ids@[i],
        ) implies ex.contains(s0.membership[ids@[i]]) by {
            assert(in_existing(s0.membership, ids@, ids@.len() as int, s0.membership[ids@[i]]));
        }
        assert(repo.membership() =~= goal.membership);
        assert(repo.groups() =~= goal.groups);
    }
    Ok(())
}

/// Tells whether a list names two or more devices.
fn several(names: &Vec<String>) -> (r: bool)
    ensures
        r == names_several(views(names@)),
{
    let mut i: usize = 1;
    while i < names.len()
        invariant
            1 <= i,
            forall|j: int|
                0 <= j < i && j < names@.len() ==> #[trigger] views(names@)[j] == views(
                    names@,
                )[0],
        decreases names@.len() - i,
    {
        if names[i] != names[0] {
            proof {
                assert(views(names@)[i as int] != views(names@)[0]);
            }
            return true;
        }
        i += 1;
    }
    false
}

/// Reads and changes the grouping of devices. It holds the store of the
/// groups and the directory of the devices that the groups are made of.
pub struct DeviceSyncService {
    pub device_sync_repo: DeviceSyncRepository,
    pub device_repo: DeviceRepository,
}

impl DeviceSyncService {
    /// Both stores are consistent.
    pub open spec fn wf(&self) -> bool {
        self.device_sync_repo.wf() && self.device_repo.wf()
    }

    /// The service over the given group store and directory of devices.
    pub fn new(device_sync_repo: DeviceSyncRepository, device_repo: DeviceRepository) -> (r:
        DeviceSyncService)
        ensures
            r.device_sync_repo == device_sync_repo,
            r.device_repo == device_repo,
    {
        DeviceSyncService { device_sync_repo, device_repo }
    }

    fn group_device_names(&self, user_id: i64, group_id: i64) -> (r: Vec<String>)
        requires
            self.wf(),
        ensures
            views(r@) == group_names(self.device_repo@, user_id, self.device_sync_repo.state(), group_id),
    {
        let ids: Vec<i64> = self.device_sync_repo.get_group_devices(group_id);
        proof {
            lemma_ascending_is(ids@, keys_of(self.device_sync_repo.membership(), group_id));
            assert(ids@.take(0) =~= Seq::<i64>::empty());
        }
        let mut names: Vec<String> = Vec::new();
        let mut j: usize = 0;
        proof {
            assert(views(names@) =~= Seq::<Seq<char>>::empty());
        }
        while j < ids.len()
            invariant
                self.wf(),
                j <= ids@.len(),
                views(names@) == names_of(self.device_repo@, user_id, ids@.take(j as int)),
            decreases ids@.len() - j,
        {
            proof {
                assert(ids@.take(j + 1).drop_last() =~= ids@.take(j as int));
            }
            let ghost before = names@;
            match self.device_repo.find_by_id(ids[j]) {
                Some(device) => {
                    if device.user_id == user_id {
                        names.push(device.device_id);
                        proof {
                            assert(views(names@) =~= views(before).push(device.device_id@));
                        }
                    }
                },
                None => {},
            }
            j += 1;
        }
        proof {
            assert(ids@.take(ids@.len() as int) =~= ids@);
        }
        names
    }

    fn is_device_synced(&self, user_id: i64, group_ids: &Vec<i64>, device_id: i64) -> (r: bool)
        requires
            self.wf(),
            enumerates(group_ids@, keys_of(self.device_sync_repo.groups(), user_id)),
        ensures
            r == is_synced(self.device_repo@, user_id, self.device_sync_repo.state(), device_id),
    {
        match self.device_sync_repo.get_device_group(device_id) {
            Some(group_id) => {
                if contains_id(group_ids, group_id) {
                    let names: Vec<String> = self.group_device_names(user_id, group_id);
                    proof {
                        assert(views(names@).len() == names@.len());
                    }
                    names.len() >= 2
                } else {
                    false
                }
            },
            None => false,
        }
    }

    /// Whatever the service holds, the status it reports divides the user's
    /// devices: each of them is named in it, none is named twice, and
    /// nothing else is named.
    pub proof fn lemma_status_divides_devices(&self, user_id: i64)
        requires
            self.wf(),
        ensures
            forall|n: Seq<char>|
                owns(self.device_repo@, user_id, n) <==> (#[trigger] not_synchronized_of(
                    self.device_repo@,
                    user_id,
                    self.device_sync_repo.state(),
                ).contains(n) || in_some_list(
                    synchronized_of(self.device_repo@, user_id, self.device_sync_repo.state()),
                    n,
                )),
            forall|n: Seq<char>|
                !(#[trigger] not_synchronized_of(
                    self.device_repo@,
                    user_id,
                    self.device_sync_repo.state(),
                ).contains(n) && in_some_list(
                    synchronized_of(self.device_repo@, user_id, self.device_sync_repo.state()),
                    n,
                )),
            forall|k1: int, k2: int, n: Seq<char>|
                0 <= k1 < k2 < synchronized_of(
                    self.device_repo@,
                    user_id,
                    self.device_sync_repo.state(),
                ).len() ==> !(#[trigger] synchronized_of(
                    self.device_repo@,
                    user_id,
                    self.device_sync_repo.state(),
                )[k1].contains(n) && #[trigger] synchronized_of(
                    self.device_repo@,
                    user_id,
                    self.device_sync_repo.state(),
                )[k2].contains(n)),
    {
        self.device_sync_repo.lemma_finite();
        lemma_status_partition(self.device_repo@, user_id, self.device_sync_repo.state());
    }

    /// A device is in one group at most.
    pub proof fn lemma_one_group_per_device(&self, device: i64, g1: i64, g2: i64)
        requires
            keys_of(self.device_sync_repo.membership(), g1).contains(device),
            keys_of(self.device_sync_repo.membership(), g2).contains(device),
        ensures
            g1 == g2,
    {
    }

    /// The first device name in the requests of two or more names that the
    /// user has no device for.
    fn find_unknown(&self, user_id: i64, requests: &Vec<Vec<String>>) -> (r: Option<String>)
        requires
            self.wf(),
        ensures
            match r {
                Some(name) => first_unknown(self.device_repo@, user_id, nested_views(requests@))
                    == Some(name@),
                None => first_unknown(self.device_repo@, user_id, nested_views(requests@))
                    is None,
            },
    {
        let ghost rows = self.device_repo@;
        let ghost all = nested_views(requests@);
        let mut k: usize = 0;
        proof {
            assert(all.take(0) =~= Seq::<Seq<Seq<char>>>::empty());
        }
        while k < requests.len()
            invariant
                self.wf(),
                rows == self.device_repo@,
                all == nested_views(requests@),
                k <= requests@.len(),
                first_unknown(rows, user_id, all.take(k as int)) is None,
            decreases requests@.len() - k,
        {
            let names: &Vec<String> = &requests[k];
            let ghost these = views(names@);
            proof {
                assert(all.take(k + 1).drop_last() =~= all.take(k as int));
                assert(all.take(k + 1).last() == these);
                assert(these.take(0) =~= Seq::<Seq<char>>::empty());
            }
            if several(names) {
                let mut i: usize = 0;
                while i < names.len()
                    invariant
                        self.wf(),
                        rows == self.device_repo@,
                        all == nested_views(requests@),
                        k < requests@.len(),
                        these == views(names@),
                        names_several(these),
                        all.take(k + 1).drop_last() == all.take(k as int),
                        all.take(k + 1).last() == these,
                        first_unknown(rows, user_id, all.take(k as int)) is None,
                        i <= names@.len(),
                        unknown_in(rows, user_id, these.take(i as int)) is None,
                    decreases names@.len() - i,
                {
                    proof {
                        assert(these.take(i + 1).drop_last() =~= these.take(i as int));
                        assert(these.take(i + 1).last() == names@[i as int]@);
                    }
                    if self.device_repo.find_by_device_id(user_id, names[i].as_str()).is_none() {
                        proof {
                            lemma_unknown_prefix(rows, user_id, these, i + 1);
                            lemma_first_unknown_prefix(rows, user_id, all, k + 1);
                        }
                        return Some(names[i].clone());
                    }
                    i += 1;
                }
                proof {
                    assert(these.take(these.len() as int) =~= these);
                }
            }
            k += 1;
        }
        proof {
            assert(all.take(all.len() as int) =~= all);
        }
        None
    }

    /// The keys of the devices called `names`.
    fn resolve_all(&self, user_id: i64, names: &Vec<String>) -> (r: Vec<i64>)
        requires
            self.wf(),
            unknown_in(self.device_repo@, user_id, views(names@)) is None,
        ensures
            r@ == resolved(self.device_repo@, user_id, views(names@)),
    {
        let ghost rows = self.device_repo@;
        let ghost these = views(names@);
        let mut ids: Vec<i64> = Vec::new();
        let mut i: usize = 0;
        while i < names.len()
            invariant
                self.wf(),
                rows == self.device_repo@,
                these == views(names@),
                unknown_in(rows, user_id, these) is None,
                i <= names@.len(),
                ids@ == resolved(rows, user_id, these).take(i as int),
            decreases names@.len() - i,
        {
            proof {
                lemma_all_known(rows, user_id, these, i as int);
            }
            match self.device_repo.find_by_device_id(user_id, names[i].as_str()) {
                Some(device) => {
                    ids.push(device.id);
                },
                None => {},
            }
            proof {
                assert(ids@ =~= resolved(rows, user_id, these).take(i + 1));
            }
            i += 1;
        }
        proof {
            assert(resolved(rows, user_id, these).take(these.len() as int) =~= resolved(
                rows,
                user_id,
                these,
            ));
        }
        ids
    }

    /// Detaches each of the devices called `names` from its group.
    fn detach_all(&mut self, user_id: i64, names: &Vec<String>)
        requires
            old(self).wf(),
        ensures
            final(self).wf(),
            final(self).device_repo == old(self).device_repo,
            final(self).device_sync_repo.groups() == old(self).device_sync_repo.groups(),
            final(self).device_sync_repo.next_group_id() == old(
                self,
            ).device_sync_repo.next_group_id(),
            final(self).device_sync_repo.membership() == after_stops(
                old(self).device_repo@,
                user_id,
                old(self).device_sync_repo.membership(),
                views(names@),
            ),
    {
        let ghost rows = self.device_repo@;
        let ghost m0 = self.device_sync_repo.membership();
        let ghost these = views(names@);
        let mut i: usize = 0;
        proof {
            assert(these.take(0) =~= Seq::<Seq<char>>::empty());
        }
        while i < names.len()
            invariant
                self.wf(),
                self.device_repo == old(self).device_repo,
                rows == self.device_repo@,
                these == views(names@),
                i <= names@.len(),
                self.device_sync_repo.groups() == old(self).device_sync_repo.groups(),
                self.device_sync_repo.next_group_id() == old(
                    self,
                ).device_sync_repo.next_group_id(),
                self.device_sync_repo.membership() == after_stops(
                    rows,
                    user_id,
                    m0,
                    these.take(i as int),
                ),
            decreases names@.len() - i,
        {
            proof {
                assert(these.take(i + 1).drop_last() =~= these.take(i as int));
                assert(these.take(i + 1).last() == names@[i as int]@);
            }
            match self.device_repo.find_by_device_id(user_id, names[i].as_str()) {
                Some(device) => {
                    self.device_sync_repo.remove_device_from_group(device.id);
                },
                None => {},
            }
            i += 1;
        }
        proof {
            assert(these.take(these.len() as int) =~= these);
        }
    }

    /// Changes the grouping of a user's devices and returns the new status.
    ///
    /// First each device named in `stop_synchronize` is taken out of its
    /// group; a name that the user has no device for is passed over. Then,
    /// for each entry of `synchronize` that names two or more devices (the
    /// same name given twice counts once), the
    /// groups that hold any of them are merged into the one with the lowest
    /// id (a new group, if none of the devices was in a group), and the named
    /// devices are put into it. Entries that name fewer devices are ignored.
    ///
    /// The call is carried out as a whole or not at all. If an entry of two
    /// or more names holds a name that the user has no device for, nothing
    /// changes and the first such name is reported as a bad request. If the
    /// store could run out of group ids, nothing changes either.
    pub fn update_sync_groups(
        &mut self,
        user_id: i64,
        synchronize: Vec<Vec<String>>,
        stop_synchronize: Vec<String>,
    ) -> (r: Result<DeviceSyncStatus, AppError>)
        requires
            old(self).wf(),
        ensures
            final(self).wf(),
            final(self).device_repo == old(self).device_repo,
            match first_unknown(old(self).device_repo@, user_id, nested_views(synchronize@)) {
                Some(name) => {
                    &&& r matches Err(AppError::BadRequest(msg))
                    &&& msg@ == not_found_message(name)
                    &&& final(self).device_sync_repo.state() == old(self).device_sync_repo.state()
                },
                None => if old(self).device_sync_repo.next_group_id() + synchronize@.len()
                    > i64::MAX {
                    &&& r matches Err(AppError::Internal(msg)) && msg@
                        == "sync group ids are used up"@
                    &&& final(self).device_sync_repo.state() == old(self).device_sync_repo.state()
                } else {
                    &&& r matches Ok(status)
                    &&& final(self).device_sync_repo.state() == updated(
                        old(self).device_repo@,
                        user_id,
                        old(self).device_sync_repo.state(),
                        nested_views(synchronize@),
                        views(stop_synchronize@),
                    )
                    &&& nested_views(status.synchronized@) == synchronized_of(
                        final(self).device_repo@,
                        user_id,
                        final(self).device_sync_repo.state(),
                    )
                    &&& views(status.not_synchronized@) == not_synchronized_of(
                        final(self).device_repo@,
                        user_id,
                        final(self).device_sync_repo.state(),
                    )
                },
            },
    {
        let ghost rows = self.device_repo@;
        let ghost s0 = self.device_sync_repo.state();
        let ghost requests = nested_views(synchronize@);
        match self.find_unknown(user_id, &synchronize) {
            Some(name) => {
                let message: String = String::from_str("Device '").concat(name.as_str()).concat(
                    "' not found",
                );
                return Err(AppError::BadRequest(message));
            },
            None => {},
        }
        let next: i64 = self.device_sync_repo.peek_next_group_id();
        if (synchronize.len() as i128) + (next as i128) > (i64::MAX as i128) {
            return Err(AppError::Internal(String::from_str("sync group ids are used up")));
        }
        self.detach_all(user_id, &stop_synchronize);
        let ghost s1 = self.device_sync_repo.state();
        let mut k: usize = 0;
        proof {
            assert(requests.take(0) =~= Seq::<Seq<Seq<char>>>::empty());
        }
        while k < synchronize.len()
            invariant
                self.wf(),
                self.device_repo == old(self).device_repo,
                rows == self.device_repo@,
                requests == nested_views(synchronize@),
                first_unknown(rows, user_id, requests) is None,
                k <= synchronize@.len(),
                s0.next_group_id + synchronize@.len() <= i64::MAX,
                self.device_sync_repo.next_group_id() <= s0.next_group_id + k,
                self.device_sync_repo.state() == after_requests(
                    rows,
                    user_id,
                    s1,
                    requests.take(k as int),
                ),
            decreases synchronize@.len() - k,
        {
            let names: &Vec<String> = &synchronize[k];
            proof {
                assert(requests.take(k + 1).drop_last() =~= requests.take(k as int));
                assert(requests.take(k + 1).last() == views(names@));
            }
            if several(names) {
                proof {
                    lemma_requests_known(rows, user_id, requests, k as int);
                }
                let ids: Vec<i64> = self.resolve_all(user_id, names);
                match merge_devices(&mut self.device_sync_repo, user_id, &ids) {
                    Ok(_) => {},
                    Err(e) => {
                        return Err(e);
                    },
                }
            }
            k += 1;
        }
        proof {
            assert(requests.take(requests.len() as int) =~= requests);
        }
        let status: DeviceSyncStatus = self.get_sync_status(user_id);
        Ok(status)
    }

    /// The grouping of a user's devices as a client sees it. Each group of
    /// the user with two or more of the user's devices is listed with its
    /// members' names, by ascending device key; every other device of the
    /// user is listed as not synchronized, in the order of registration.
    pub fn get_sync_status(&self, user_id: i64) -> (r: DeviceSyncStatus)
        requires
            self.wf(),
        ensures
            nested_views(r.synchronized@) == synchronized_of(
                self.device_repo@,
                user_id,
                self.device_sync_repo.state(),
            ),
            views(r.not_synchronized@) == not_synchronized_of(
                self.device_repo@,
                user_id,
                self.device_sync_repo.state(),
            ),
    {
        let ghost rows = self.device_repo@;
        let ghost state = self.device_sync_repo.state();
        let all_devices: Vec<Device> = self.device_repo.list_by_user(user_id);
        let group_ids: Vec<i64> = self.device_sync_repo.get_user_groups(user_id);
        proof {
            lemma_ascending_is(group_ids@, keys_of(state.groups, user_id));
        }
        let mut synchronized: Vec<Vec<String>> = Vec::new();
        let mut k: usize = 0;
        proof {
            assert(group_ids@.take(0) =~= Seq::<i64>::empty());
            assert(nested_views(synchronized@) =~= Seq::<Seq<Seq<char>>>::empty());
        }
        while k < group_ids.len()
            invariant
                self.wf(),
                rows == self.device_repo@,
                state == self.device_sync_repo.state(),
                k <= group_ids@.len(),
                nested_views(synchronized@) == visible_groups(
                    rows,
                    user_id,
                    state,
                    group_ids@.take(k as int),
                ),
            decreases group_ids@.len() - k,
        {
            proof {
                assert(group_ids@.take(k + 1).drop_last() =~= group_ids@.take(k as int));
            }
            let names: Vec<String> = self.group_device_names(user_id, group_ids[k]);
            proof {
                assert(views(names@).len() == names@.len());
            }
            if names.len() >= 2 {
                let ghost before = synchronized@;
                let ghost entry = views(names@);
                synchronized.push(names);
                proof {
                    assert(nested_views(synchronized@) =~= nested_views(before).push(entry));
                }
            }
            k += 1;
        }
        proof {
            assert(group_ids@.take(group_ids@.len() as int) =~= group_ids@);
        }
        let mut not_synchronized: Vec<String> = Vec::new();
        let count: usize = all_devices.len();
        let mut i: usize = count;
        let ghost oldest_first = all_devices@.reverse();
        proof {
            assert(oldest_first.take(0) =~= Seq::<Device>::empty());
            assert(views(not_synchronized@) =~= Seq::<Seq<char>>::empty());
        }
        while i > 0
            invariant
                self.wf(),
                rows == self.device_repo@,
                state == self.device_sync_repo.state(),
                enumerates(group_ids@, keys_of(self.device_sync_repo.groups(), user_id)),
                count == all_devices@.len(),
                oldest_first == all_devices@.reverse(),
                i <= count,
                views(not_synchronized@) == unsynced_names(
                    rows,
                    user_id,
                    state,
                    oldest_first.take(count - i),
                ),
            decreases i,
        {
            proof {
                assert(oldest_first.take(count - i + 1).drop_last() =~= oldest_first.take(
                    count - i,
                ));
                assert(oldest_first.take(count - i + 1).last() == all_devices@[i - 1]);
            }
            i -= 1;
            if !self.is_device_synced(user_id, &group_ids, all_devices[i].id) {
                let ghost before = not_synchronized@;
                let name: String = all_devices[i].device_id.clone();
                not_synchronized.push(name);
                proof {
                    assert(views(not_synchronized@) =~= views(before).push(name@));
                }
            }
        }
        proof {
            assert(oldest_first.take(count as int) =~= oldest_first);
        }
        DeviceSyncStatus { synchronized, not_synchronized }
    }
}

} // verus!
