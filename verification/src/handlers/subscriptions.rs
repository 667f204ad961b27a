//! The requests about subscriptions: uploading changes, polling for changes,
//! and reading or replacing a device's whole list.

use vstd::prelude::*;
use crate::error::AppError;
use crate::middleware::auth::AuthContext;
use crate::models::SubscriptionChanges;
use crate::repository::device_repository::find_named;
use crate::repository::subscription_repository::{
    added_urls,
    answer,
    applied,
    current_urls,
    reconciled,
    is_active,
    key,
    lemma_subscribe_all,
    lemma_unsubscribe_all,
    removed_urls,
    subscribe_all,
    Selection,
    SubscriptionKey,
    SubscriptionTimes,
};
use crate::services::device_service::DeviceService;
use crate::services::subscription_service::SubscriptionService;
use crate::text::{
    chars_of,
    contains_string,
    find_char,
    find_text,
    first_at,
    first_match,
    join_strings,
    joined,
    lemma_first_at,
    lemma_texts_take,
    slice_string,
    text_set,
    trim_range,
    trimmed,
    views,
    without,
};
use crate::utils::url_sanitizer::{
    is_http_url,
    pair_views,
    rewrites,
    sanitize_urls,
    sanitized,
};

verus! {

/// The answer to an upload or to a poll for changes.
#[derive(Debug)]
pub struct SubscriptionListResponse {
    pub add: Vec<String>,
    pub remove: Vec<String>,
    pub timestamp: i64,
    pub update_urls: Vec<[String; 2]>,
}

/// An upload of subscription changes.
#[derive(Debug)]
pub struct SubscriptionUploadRequest {
    pub add: Option<Vec<String>>,
    pub remove: Option<Vec<String>>,
    pub timestamp: Option<i64>,
}

/// The parameters of a request for a device's subscriptions.
#[derive(Debug)]
pub struct SubscriptionQueryParams {
    pub since: Option<i64>,
}

/// Those of `urls` that pass sanitation, each once, in the order in which
/// they first occur.
pub open spec fn accepted(urls: Seq<Seq<char>>) -> Seq<Seq<char>>
    decreases urls.len(),
{
    if urls.len() == 0 {
        Seq::empty()
    } else if is_http_url(urls.last()) && !accepted(urls.drop_last()).contains(urls.last()) {
        accepted(urls.drop_last()).push(urls.last())
    } else {
        accepted(urls.drop_last())
    }
}

/// The first of `add` that is also in `remove`.
pub open spec fn first_conflict(add: Seq<Seq<char>>, remove: Seq<Seq<char>>) -> Option<Seq<char>>
    decreases add.len(),
{
    if add.len() == 0 {
        None
    } else {
        match first_conflict(add.drop_last(), remove) {
            Some(url) => Some(url),
            None => if remove.contains(add.last()) {
                Some(add.last())
            } else {
                None
            },
        }
    }
}

/// The reason given when a URL is both to be added and to be removed.
pub open spec fn conflict_message(url: Seq<char>) -> Seq<char> {
    "URL cannot be both added and removed: "@ + url
}

/// The URLs of an optional list.
pub open spec fn urls_of(list: Option<Vec<String>>) -> Seq<Seq<char>> {
    match list {
        Some(v) => views(v@),
        None => Seq::empty(),
    }
}

/// There is a conflict exactly when some URL is in both lists.
pub proof fn lemma_conflict(add: Seq<Seq<char>>, remove: Seq<Seq<char>>)
    ensures
        first_conflict(add, remove) is Some <==> exists|url: Seq<char>|
            add.contains(url) && remove.contains(url),
        first_conflict(add, remove) matches Some(url) ==> add.contains(url) && remove.contains(
            url,
        ),
    decreases add.len(),
{
    if add.len() > 0 {
        let init = add.drop_last();
        lemma_conflict(init, remove);
        assert(add.take(add.len() - 1) =~= init);
        assert(add.take(add.len() as int) =~= add);
        assert forall|x: Seq<char>| add.contains(x) <==> init.contains(x) || x == add.last() by {
            lemma_texts_take(add, add.len() - 1, x);
        }
        if exists|url: Seq<char>| add.contains(url) && remove.contains(url) {
            let url = choose|url: Seq<char>| add.contains(url) && remove.contains(url);
            if init.contains(url) {
                assert(first_conflict(init, remove) is Some);
            }
        }
        if first_conflict(add, remove) is Some {
            let url = first_conflict(add, remove).unwrap();
            assert(add.contains(url) && remove.contains(url));
        }
    } else {
        assert forall|url: Seq<char>| !add.contains(url) by {}
    }
}

/// The URLs that pass sanitation are those of the given ones that are
/// `http://` or `https://` URLs, and none of them is listed twice.
pub proof fn lemma_accepted(urls: Seq<Seq<char>>, url: Seq<char>)
    ensures
        accepted(urls).contains(url) <==> urls.contains(url) && is_http_url(url),
        accepted(urls).no_duplicates(),
    decreases urls.len(),
{
    if urls.len() > 0 {
        let init = urls.drop_last();
        lemma_accepted(init, url);
        assert(urls.take(urls.len() - 1) =~= init);
        assert(urls.take(urls.len() as int) =~= urls);
        lemma_texts_take(urls, urls.len() - 1, url);
        if is_http_url(urls.last()) && !accepted(init).contains(urls.last()) {
            let acc = accepted(urls);
            let prev = accepted(init);
            assert(acc.take(prev.len() as int) =~= prev);
            assert(acc.take(prev.len() as int + 1) =~= acc);
            lemma_texts_take(acc, prev.len() as int, url);
        }
    } else {
        assert(!accepted(urls).contains(url));
        assert(!urls.contains(url));
    }
}

/// Sanitizes a list of URLs. Returns those that pass, each once, in the
/// order in which they first occur, and the `[given, rewritten]` pair of
/// each one that does not.
pub fn accept_urls(urls: &Vec<String>) -> (r: (Vec<String>, Vec<[String; 2]>))
    ensures
        views(r.0@) == accepted(views(urls@)),
        pair_views(r.1@) == rewrites(views(urls@)),
{
    let (clean, updates) = sanitize_urls(urls.as_slice());
    let ghost all = views(urls@);
    let mut kept: Vec<String> = Vec::new();
    let mut i: usize = 0;
    proof {
        assert(all.take(0) =~= Seq::<Seq<char>>::empty());
        assert(views(kept@) =~= Seq::<Seq<char>>::empty());
    }
    while i < clean.len()
        invariant
            all == views(urls@),
            clean@.len() == urls@.len(),
            forall|j: int| 0 <= j < urls@.len() ==> (#[trigger] clean@[j])@ == sanitized(urls@[j]@),
            i <= clean@.len(),
            views(kept@) == accepted(all.take(i as int)),
        decreases clean@.len() - i,
    {
        let ghost before = views(kept@);
        proof {
            assert(all.take(i + 1).drop_last() =~= all.take(i as int));
            assert(all.take(i + 1).last() == urls@[i as int]@);
            reveal_strlit("http://");
            reveal_strlit("https://");
            assert(clean@[i as int]@ == sanitized(urls@[i as int]@));
        }
        if clean[i].as_str().unicode_len() > 0 && !contains_string(&kept, &clean[i]) {
            kept.push(clean[i].clone());
            proof {
                assert(views(kept@) =~= before.push(urls@[i as int]@));
            }
        }
        i += 1;
    }
    proof {
        assert(all.take(all.len() as int) =~= all);
    }
    (kept, updates)
}

/// The first URL of `add` that is also in `remove`.
fn find_conflict(add: &Vec<String>, remove: &Vec<String>) -> (r: Option<String>)
    ensures
        match r {
            Some(url) => first_conflict(views(add@), views(remove@)) == Some(url@),
            None => first_conflict(views(add@), views(remove@)) is None,
        },
{
    let ghost all = views(add@);
    let mut i: usize = 0;
    proof {
        assert(all.take(0) =~= Seq::<Seq<char>>::empty());
    }
    while i < add.len()
        invariant
            all == views(add@),
            i <= add@.len(),
            first_conflict(all.take(i as int), views(remove@)) is None,
        decreases add@.len() - i,
    {
        proof {
            assert(all.take(i + 1).drop_last() =~= all.take(i as int));
            assert(all.take(i + 1).last() == add@[i as int]@);
        }
        if contains_string(remove, &add[i]) {
            proof {
                lemma_conflict_prefix(all, views(remove@), i + 1);
            }
            return Some(add[i].clone());
        }
        i += 1;
    }
    proof {
        assert(all.take(all.len() as int) =~= all);
    }
    None
}

/// A conflict found in a first part of `add` is the first conflict of the
/// whole list.
pub proof fn lemma_conflict_prefix(add: Seq<Seq<char>>, remove: Seq<Seq<char>>, n: int)
    requires
        0 <= n <= add.len(),
        first_conflict(add.take(n), remove) is Some,
    ensures
        first_conflict(add, remove) == first_conflict(add.take(n), remove),
    decreases add.len() - n,
{
    if n < add.len() {
        assert(add.take(n + 1).drop_last() =~= add.take(n));
        lemma_conflict_prefix(add, remove, n + 1);
    } else {
        assert(add.take(n) =~= add);
    }
}

/// After a batch of changes a device is subscribed only to feeds that it
/// was subscribed to before or that the batch added.
pub proof fn lemma_applied_active(
    log: Map<SubscriptionKey, SubscriptionTimes>,
    user: i64,
    device: i64,
    add: Seq<Seq<char>>,
    remove: Seq<Seq<char>>,
    ts: i64,
    url: Seq<char>,
)
    requires
        current_urls(applied(log, user, device, add, remove, ts), user, device).contains(url),
    ensures
        current_urls(log, user, device).contains(url) || add.contains(url),
{
    let middle = subscribe_all(log, user, device, add, ts);
    lemma_subscribe_all(log, user, device, add, ts);
    lemma_unsubscribe_all(middle, user, device, remove, ts);
    let k = key(user, device, url);
    assert(is_active(middle, k));
}

/// Carries out an upload of subscription changes for one device of the
/// caller.
///
/// The upload is refused, and nothing changes, when the caller is not the
/// user named in the request, or when a URL is both in `add` and in
/// `remove`. Otherwise the device is registered if the user does not have it
/// yet, the URLs that are not `http://` or `https://` URLs are left out, and
/// the others are applied at the time given in the request, or at `now` if
/// it gives none. The answer lists what was applied and, in `update_urls`,
/// each URL that was left out together with the empty string that stands
/// for it.
pub fn upload_subscriptions(
    username: &str,
    device_id: &str,
    auth: &AuthContext,
    device_service: &mut DeviceService,
    subscription_service: &mut SubscriptionService,
    req: SubscriptionUploadRequest,
    now: i64,
) -> (r: Result<SubscriptionListResponse, AppError>)
    requires
        old(device_service).device_repo.wf(),
        old(subscription_service).sub_repo.wf(),
    ensures
        final(device_service).device_repo.wf(),
        final(subscription_service).sub_repo.wf(),
        (exists|url: Seq<char>| urls_of(req.add).contains(url) && urls_of(req.remove).contains(url))
            ==> r is Err && final(subscription_service).sub_repo@ == old(
            subscription_service,
        ).sub_repo@ && final(device_service).device_repo@ == old(device_service).device_repo@,
        if username@ != auth.username@ {
            &&& r matches Err(AppError::Authorization)
            &&& final(subscription_service).sub_repo@ == old(subscription_service).sub_repo@
            &&& final(device_service).device_repo@ == old(device_service).device_repo@
        } else {
            match first_conflict(urls_of(req.add), urls_of(req.remove)) {
                Some(url) => {
                    &&& r matches Err(AppError::BadRequest(msg)) && msg@ == conflict_message(url)
                    &&& final(subscription_service).sub_repo@ == old(
                        subscription_service,
                    ).sub_repo@
                    &&& final(device_service).device_repo@ == old(device_service).device_repo@
                },
                None => if find_named(old(device_service).device_repo@, auth.user_id, device_id@)
                    is None && old(device_service).device_repo.next_device_id() >= i64::MAX {
                    &&& r matches Err(AppError::Internal(msg)) && msg@
                        == "Database error: "@ + "device keys are used up"@
                    &&& final(subscription_service).sub_repo@ == old(
                        subscription_service,
                    ).sub_repo@
                    &&& final(device_service).device_repo@ == old(device_service).device_repo@
                } else {
                    let device = match find_named(
                        old(device_service).device_repo@,
                        auth.user_id,
                        device_id@,
                    ) {
                        Some(d) => d.id,
                        None => old(device_service).device_repo.next_device_id() as i64,
                    };
                    let ts = match req.timestamp {
                        Some(t) => t,
                        None => now,
                    };
                    &&& r matches Ok(response)
                    &&& views(response.add@) == accepted(urls_of(req.add))
                    &&& views(response.remove@) == accepted(urls_of(req.remove))
                    &&& response.timestamp == now
                    &&& pair_views(response.update_urls@) == rewrites(urls_of(req.add)) + rewrites(
                        urls_of(req.remove),
                    )
                    &&& find_named(final(device_service).device_repo@, auth.user_id, device_id@)
                        matches Some(d) && d.id == device
                    &&& final(subscription_service).sub_repo@ == applied(
                        old(subscription_service).sub_repo@,
                        auth.user_id,
                        device,
                        accepted(urls_of(req.add)),
                        accepted(urls_of(req.remove)),
                        ts,
                    )
                    &&& forall|url: Seq<char>|
                        current_urls(
                            final(subscription_service).sub_repo@,
                            auth.user_id,
                            device,
                        ).contains(url) ==> is_http_url(url) || current_urls(
                            old(subscription_service).sub_repo@,
                            auth.user_id,
                            device,
                        ).contains(url)
                },
            }
        },
{
    let add: Vec<String> = match req.add {
        Some(v) => v,
        None => Vec::new(),
    };
    let remove: Vec<String> = match req.remove {
        Some(v) => v,
        None => Vec::new(),
    };
    proof {
        assert(views(add@) =~= urls_of(req.add));
        assert(views(remove@) =~= urls_of(req.remove));
        lemma_conflict(views(add@), views(remove@));
    }
    if String::from_str(username) != auth.username {
        return Err(AppError::Authorization);
    }
    match find_conflict(&add, &remove) {
        Some(url) => {
            let message: String = String::from_str(
                "URL cannot be both added and removed: ",
            ).concat(url.as_str());
            return Err(AppError::BadRequest(message));
        },
        None => {},
    }
    let device: i64 = match device_service.get_or_create_device(
        auth.user_id,
        device_id,
        None,
        None,
        now,
    ) {
        Ok(id) => id,
        Err(e) => {
            return Err(AppError::Internal(e.to_string()));
        },
    };
    proof {
        let before = old(device_service).device_repo@;
        let after = device_service.device_repo@;
        if find_named(before, auth.user_id, device_id@) is None {
            crate::repository::device_repository::lemma_find_named(
                after,
                auth.user_id,
                device_id@,
                after.len() - 1,
            );
        }
    }
    let (accepted_add, mut add_updates) = accept_urls(&add);
    let (accepted_remove, mut remove_updates) = accept_urls(&remove);
    let ghost add_pairs = pair_views(add_updates@);
    let ghost remove_pairs = pair_views(remove_updates@);
    let mut all_updates: Vec<[String; 2]> = Vec::new();
    all_updates.append(&mut add_updates);
    all_updates.append(&mut remove_updates);
    proof {
        assert(pair_views(all_updates@) =~= add_pairs + remove_pairs);
    }
    let timestamp: i64 = match req.timestamp {
        Some(t) => t,
        None => now,
    };
    let changes = SubscriptionChanges {
        add: crate::text::clone_strings(&accepted_add),
        remove: crate::text::clone_strings(&accepted_remove),
        timestamp,
    };
    subscription_service.upload_changes(auth.user_id, device, changes);
    proof {
        let log = old(subscription_service).sub_repo@;
        assert forall|url: Seq<char>|
            current_urls(subscription_service.sub_repo@, auth.user_id, device).contains(url)
                implies is_http_url(url) || current_urls(log, auth.user_id, device).contains(
            url,
        ) by {
            lemma_applied_active(
                log,
                auth.user_id,
                device,
                views(accepted_add@),
                views(accepted_remove@),
                timestamp,
                url,
            );
            lemma_accepted(views(add@), url);
        }
    }
    Ok(
        SubscriptionListResponse {
            add: accepted_add,
            remove: accepted_remove,
            timestamp: now,
            update_urls: all_updates,
        },
    )
}

/// What a client gets when it asks for a device's subscriptions.
#[derive(Debug)]
pub enum SubscriptionsReply {
    /// The changes since the time that the client named.
    Changes(SubscriptionListResponse),
    /// The whole list, when the client named no time.
    List(Vec<String>),
}

/// Answers a request for the subscriptions of one device of the caller: the
/// changes since `params.since` if that is given, the whole list if not. The
/// device is registered if the user does not have it yet. The request is
/// refused, and nothing changes, when the caller is not the user named in it.
pub fn get_subscriptions(
    username: &str,
    device_id: &str,
    params: &SubscriptionQueryParams,
    auth: &AuthContext,
    device_service: &mut DeviceService,
    subscription_service: &SubscriptionService,
    now: i64,
) -> (r: Result<SubscriptionsReply, AppError>)
    requires
        old(device_service).device_repo.wf(),
        subscription_service.sub_repo.wf(),
    ensures
        final(device_service).device_repo.wf(),
        if username@ != auth.username@ {
            &&& r matches Err(AppError::Authorization)
            &&& final(device_service).device_repo@ == old(device_service).device_repo@
        } else if find_named(old(device_service).device_repo@, auth.user_id, device_id@) is None
            && old(device_service).device_repo.next_device_id() >= i64::MAX {
            &&& r matches Err(AppError::Internal(msg)) && msg@
                == "Database error: "@ + "device keys are used up"@
            &&& final(device_service).device_repo@ == old(device_service).device_repo@
        } else {
            let device = match find_named(
                old(device_service).device_repo@,
                auth.user_id,
                device_id@,
            ) {
                Some(d) => d.id,
                None => old(device_service).device_repo.next_device_id() as i64,
            };
            let log = subscription_service.sub_repo@;
            match params.since {
                Some(since) => {
                    &&& r matches Ok(SubscriptionsReply::Changes(response))
                    &&& views(response.add@) == answer(
                        log,
                        auth.user_id,
                        device,
                        Selection::AddedSince(since),
                    )
                    &&& views(response.remove@) == answer(
                        log,
                        auth.user_id,
                        device,
                        Selection::RemovedSince(since),
                    )
                    &&& forall|url: Seq<char>|
                        #[trigger] views(response.add@).contains(url) <==> added_urls(
                            log,
                            auth.user_id,
                            device,
                            since,
                        ).contains(url)
                    &&& forall|url: Seq<char>|
                        #[trigger] views(response.remove@).contains(url) <==> removed_urls(
                            log,
                            auth.user_id,
                            device,
                            since,
                        ).contains(url)
                    &&& response.timestamp == now
                    &&& response.update_urls@.len() == 0
                },
                None => {
                    &&& r matches Ok(SubscriptionsReply::List(urls))
                    &&& views(urls@) == answer(log, auth.user_id, device, Selection::Current)
                    &&& forall|url: Seq<char>|
                        #[trigger] views(urls@).contains(url) <==> current_urls(
                            log,
                            auth.user_id,
                            device,
                        ).contains(url)
                },
            }
        },
{
    if String::from_str(username) != auth.username {
        return Err(AppError::Authorization);
    }
    let device: i64 = match device_service.get_or_create_device(
        auth.user_id,
        device_id,
        None,
        None,
        now,
    ) {
        Ok(id) => id,
        Err(e) => {
            return Err(AppError::Internal(e.to_string()));
        },
    };
    match params.since {
        Some(since) => {
            let (add, remove) = subscription_service.get_changes_since(
                auth.user_id,
                device,
                since,
            );
            Ok(
                SubscriptionsReply::Changes(
                    SubscriptionListResponse {
                        add,
                        remove,
                        timestamp: now,
                        update_urls: Vec::new(),
                    },
                ),
            )
        },
        None => {
            let urls: Vec<String> = subscription_service.get_subscriptions(auth.user_id, device);
            Ok(SubscriptionsReply::List(urls))
        },
    }
}

/// The list as plain text: one URL on each line.
pub open spec fn txt_of(urls: Seq<Seq<char>>) -> Seq<char> {
    joined(urls, "\n"@)
}

/// What stands in front of the entries of an OPML document.
pub open spec fn opml_head() -> Seq<char> {
    "<?xml version=\"1.0\" encoding=\"UTF-8\"?>\n<opml version=\"2.0\">\n  <head>\n    <title>Podcast Subscriptions</title>\n  </head>\n  <body>\n"@
}

/// What stands behind the entries of an OPML document.
pub open spec fn opml_tail() -> Seq<char> {
    "  </body>\n</opml>"@
}

/// The entry of one feed in an OPML document, with the line break behind it.
pub open spec fn opml_entry(url: Seq<char>) -> Seq<char> {
    "    <outline type=\"rss\" text=\""@ + url + "\" xmlUrl=\""@ + url + "\"/>"@ + "\n"@
}

/// The entries of a list of feeds, one after the other.
pub open spec fn opml_entries(urls: Seq<Seq<char>>) -> Seq<char>
    decreases urls.len(),
{
    if urls.len() == 0 {
        Seq::empty()
    } else {
        opml_entries(urls.drop_last()) + opml_entry(urls.last())
    }
}

/// The list as an OPML document.
pub open spec fn opml_of(urls: Seq<Seq<char>>) -> Seq<char> {
    opml_head() + opml_entries(urls) + opml_tail()
}

/// Writes a list of feeds as an OPML document with one outline element for
/// each feed, in order. The URLs are put in as they are.
pub fn to_opml(subscriptions: &[String]) -> (r: String)
    ensures
        r@ == opml_of(views(subscriptions@)),
{
    let ghost all = views(subscriptions@);
    let mut opml: String = String::from_str(
        "<?xml version=\"1.0\" encoding=\"UTF-8\"?>\n<opml version=\"2.0\">\n  <head>\n    <title>Podcast Subscriptions</title>\n  </head>\n  <body>\n",
    );
    let mut i: usize = 0;
    proof {
        assert(all.take(0) =~= Seq::<Seq<char>>::empty());
        assert(opml@ =~= opml_head() + opml_entries(all.take(0)));
    }
    while i < subscriptions.len()
        invariant
            all == views(subscriptions@),
            i <= subscriptions@.len(),
            opml@ == opml_head() + opml_entries(all.take(i as int)),
        decreases subscriptions@.len() - i,
    {
        let url: &str = subscriptions[i].as_str();
        let ghost before = opml@;
        proof {
            assert(all.take(i + 1).drop_last() =~= all.take(i as int));
            assert(all.take(i + 1).last() == url@);
        }
        opml.append("    <outline type=\"rss\" text=\"");
        opml.append(url);
        opml.append("\" xmlUrl=\"");
        opml.append(url);
        opml.append("\"/>");
        opml.append("\n");
        proof {
            assert(opml@ =~= before + opml_entry(url@));
            assert(opml@ =~= opml_head() + opml_entries(all.take(i + 1)));
        }
        i += 1;
    }
    proof {
        assert(all.take(all.len() as int) =~= all);
    }
    opml.append("  </body>\n</opml>");
    opml
}

/// Writes a list of feeds as plain text, one URL on each line.
pub fn to_txt(subscriptions: &[String]) -> (r: String)
    ensures
        r@ == txt_of(views(subscriptions@)),
{
    join_strings(subscriptions, "\n")
}

/// A line as an entry of a plain-text list: nothing if it is blank, else the
/// line without the white space around it.
pub open spec fn txt_entry(line: Seq<char>) -> Seq<Seq<char>> {
    if trimmed(line).len() == 0 {
        Seq::empty()
    } else {
        seq![trimmed(line)]
    }
}

/// The URLs of a plain-text list: its lines that are not blank, each
/// without the white space around it.
pub open spec fn txt_urls(body: Seq<char>) -> Seq<Seq<char>>
    decreases body.len(),
{
    let p = first_at(body, '\n');
    if p < 0 || p >= body.len() {
        txt_entry(body)
    } else {
        txt_entry(body.take(p)) + txt_urls(body.skip(p + 1))
    }
}

/// Reads a plain-text list of feeds.
pub fn parse_txt(body: &str) -> (r: Vec<String>)
    ensures
        views(r@) == txt_urls(body@),
{
    let text: Vec<char> = chars_of(body);
    let n: usize = text.len();
    let mut out: Vec<String> = Vec::new();
    let mut pos: usize = 0;
    let mut done: bool = false;
    proof {
        assert(text@.subrange(0, n as int) =~= body@);
        assert(views(out@) =~= Seq::<Seq<char>>::empty());
        assert(Seq::<Seq<char>>::empty() + txt_urls(body@) =~= txt_urls(body@));
    }
    while !done
        invariant
            text@ == body@,
            n == text@.len(),
            pos <= n,
            !done ==> views(out@) + txt_urls(text@.subrange(pos as int, n as int)) == txt_urls(
                body@,
            ),
            done ==> views(out@) == txt_urls(body@),
        decreases n - pos + (if done { 0int } else { 1int }),
    {
        let ghost rest = text@.subrange(pos as int, n as int);
        let ghost before = views(out@);
        let end: usize = find_char(&text, '\n', pos, n);
        let (a, b) = trim_range(&text, pos, end);
        proof {
            lemma_first_at(rest, '\n');
            assert(rest.take(end - pos) =~= text@.subrange(pos as int, end as int));
        }
        if a < b {
            out.push(slice_string(body, a, b));
            proof {
                assert(views(out@) =~= before.push(text@.subrange(a as int, b as int)));
                assert(views(out@) =~= before + txt_entry(text@.subrange(pos as int, end as int)));
            }
        } else {
            proof {
                assert(text@.subrange(a as int, b as int).len() == 0);
                assert(views(out@) =~= before + txt_entry(text@.subrange(pos as int, end as int)));
            }
        }
        if end == n {
            proof {
                assert(text@.subrange(pos as int, end as int) =~= rest);
            }
            done = true;
        } else {
            proof {
                assert(rest.skip(end - pos + 1) =~= text@.subrange(end + 1, n as int));
                let head = txt_entry(rest.take(end - pos));
                let tail = txt_urls(rest.skip(end - pos + 1));
                assert((before + head) + tail =~= before + (head + tail));
            }
            pos = end + 1;
        }
    }
    out
}

/// The URL that a line of an OPML document names: what stands between
/// `xmlUrl="` and the next quotation mark, if the line has both.
pub open spec fn opml_line_url(line: Seq<char>) -> Option<Seq<char>> {
    let key = "xmlUrl=\""@;
    let p = first_match(line, key);
    if p < 0 || p + key.len() > line.len() {
        None
    } else {
        let rest = line.skip(p + key.len());
        let q = first_at(rest, '"');
        if q < 0 || q >= rest.len() {
            None
        } else {
            Some(rest.take(q))
        }
    }
}

/// A line as an entry of the list read from an OPML document.
pub open spec fn opml_line_entry(line: Seq<char>) -> Seq<Seq<char>> {
    match opml_line_url(line) {
        Some(url) => seq![url],
        None => Seq::empty(),
    }
}

/// The URLs that an OPML document names, line by line.
pub open spec fn opml_urls(body: Seq<char>) -> Seq<Seq<char>>
    decreases body.len(),
{
    let p = first_at(body, '\n');
    if p < 0 || p >= body.len() {
        opml_line_entry(body)
    } else {
        opml_line_entry(body.take(p)) + opml_urls(body.skip(p + 1))
    }
}

/// Reads the feeds of an OPML document: of each line that holds `xmlUrl="`
/// and a closing quotation mark behind it, what stands between the two.
pub fn parse_opml(body: &str) -> (r: Vec<String>)
    ensures
        views(r@) == opml_urls(body@),
{
    let text: Vec<char> = chars_of(body);
    let key: Vec<char> = chars_of("xmlUrl=\"");
    let n: usize = text.len();
    let mut out: Vec<String> = Vec::new();
    let mut pos: usize = 0;
    let mut done: bool = false;
    proof {
        assert(text@.subrange(0, n as int) =~= body@);
        assert(views(out@) =~= Seq::<Seq<char>>::empty());
        assert(Seq::<Seq<char>>::empty() + opml_urls(body@) =~= opml_urls(body@));
    }
    while !done
        invariant
            text@ == body@,
            key@ == "xmlUrl=\""@,
            n == text@.len(),
            pos <= n,
            !done ==> views(out@) + opml_urls(text@.subrange(pos as int, n as int)) == opml_urls(
                body@,
            ),
            done ==> views(out@) == opml_urls(body@),
        decreases n - pos + (if done { 0int } else { 1int }),
    {
        let ghost rest = text@.subrange(pos as int, n as int);
        let ghost before = views(out@);
        let end: usize = find_char(&text, '\n', pos, n);
        let ghost line = text@.subrange(pos as int, end as int);
        proof {
            lemma_first_at(rest, '\n');
            assert(rest.take(end - pos) =~= line);
        }
        let start: usize = find_text(&text, &key, pos, end);
        if start < end {
            let from: usize = start + key.len();
            let close: usize = find_char(&text, '"', from, end);
            proof {
                assert(line.skip(start - pos + key@.len()) =~= text@.subrange(
                    from as int,
                    end as int,
                ));
                lemma_first_at(text@.subrange(from as int, end as int), '"');
            }
            if close < end {
                out.push(slice_string(body, from, close));
                proof {
                    assert(text@.subrange(from as int, end as int).take(close - from)
                        =~= text@.subrange(from as int, close as int));
                    assert(views(out@) =~= before.push(text@.subrange(from as int, close as int)));
                    assert(views(out@) =~= before + opml_line_entry(line));
                }
            } else {
                proof {
                    assert(views(out@) =~= before + opml_line_entry(line));
                }
            }
        } else {
            proof {
                assert(views(out@) =~= before + opml_line_entry(line));
            }
        }
        if end == n {
            proof {
                assert(line =~= rest);
            }
            done = true;
        } else {
            proof {
                assert(rest.skip(end - pos + 1) =~= text@.subrange(end + 1, n as int));
                let head = opml_line_entry(rest.take(end - pos));
                let tail = opml_urls(rest.skip(end - pos + 1));
                assert((before + head) + tail =~= before + (head + tail));
            }
            pos = end + 1;
        }
    }
    out
}

/// The error of `serde_json`.
#[verifier::external_type_specification]
#[verifier::external_body]
pub struct ExJsonError(serde_json::Error);

/// What `serde_json` reads from a text as a list of strings, if it reads
/// the text as one.
pub uninterp spec fn json_string_list(text: Seq<char>) -> Option<Seq<Seq<char>>>;

/// Calls `serde_json::from_str` for a list of strings. Its answer depends on
/// the text alone; the contract gives the answer its name.
#[verifier::external_body]
fn read_json_strings(text: &str) -> (r: Result<Vec<String>, serde_json::Error>)
    ensures
        match r {
            Ok(list) => json_string_list(text@) == Some(views(list@)),
            Err(_) => json_string_list(text@) is None,
        },
{
    serde_json::from_str::<Vec<String>>(text)
}

/// Calls `to_string` on an error of `serde_json`; nothing is claimed of the
/// text.
#[verifier::external_body]
fn json_error_text(e: &serde_json::Error) -> (r: String) {
    e.to_string()
}

/// A list of feeds in one of the simple formats.
#[derive(Debug)]
pub enum SimpleReply {
    /// The list itself, to be sent as a JSON array.
    Json(Vec<String>),
    /// A finished body with its content type.
    Body { content: String, content_type: String },
}

/// The reason given for a format that is not known.
pub open spec fn invalid_format_message(format: Seq<char>) -> Seq<char> {
    "Invalid format: "@ + format
}

/// A list of feeds in the format asked for, if the format is known.
pub open spec fn simple_reply_matches(r: Result<SimpleReply, AppError>, format: Seq<char>, urls: Seq<Seq<char>>) -> bool {
    if format == "json"@ {
        r matches Ok(SimpleReply::Json(list)) && views(list@) == urls
    } else if format == "opml"@ {
        r matches Ok(SimpleReply::Body { content, content_type }) && content@ == opml_of(urls)
            && content_type@ == "text/xml"@
    } else if format == "txt"@ {
        r matches Ok(SimpleReply::Body { content, content_type }) && content@ == txt_of(urls)
            && content_type@ == "text/plain"@
    } else {
        r matches Err(AppError::Internal(msg)) && msg@ == invalid_format_message(format)
    }
}

/// Puts a list of feeds into the format asked for: `json`, `opml` or `txt`.
pub fn render_simple(format: &str, subscriptions: Vec<String>) -> (r: Result<SimpleReply, AppError>)
    ensures
        simple_reply_matches(r, format@, views(subscriptions@)),
{
    let wanted: String = String::from_str(format);
    proof {
        reveal_strlit("json");
        reveal_strlit("opml");
        reveal_strlit("txt");
    }
    if wanted == String::from_str("json") {
        Ok(SimpleReply::Json(subscriptions))
    } else if wanted == String::from_str("opml") {
        Ok(
            SimpleReply::Body {
                content: to_opml(subscriptions.as_slice()),
                content_type: String::from_str("text/xml"),
            },
        )
    } else if wanted == String::from_str("txt") {
        Ok(
            SimpleReply::Body {
                content: to_txt(subscriptions.as_slice()),
                content_type: String::from_str("text/plain"),
            },
        )
    } else {
        Err(AppError::Internal(String::from_str("Invalid format: ").concat(format)))
    }
}

/// The feeds that a body in one of the simple formats names, if the format
/// is known and the body can be read.
pub open spec fn simple_urls(format: Seq<char>, body: Seq<char>) -> Option<Seq<Seq<char>>> {
    if format == "json"@ {
        json_string_list(body)
    } else if format == "txt"@ {
        Some(txt_urls(body))
    } else if format == "opml"@ {
        Some(opml_urls(body))
    } else {
        None
    }
}

/// Reads a list of feeds from a body in the format named: `json`, `txt` or
/// `opml`. An unknown format is an internal error with the reason
/// "Invalid format: " and the format; a JSON body that is not a list of
/// strings is an internal error too.
pub fn parse_simple(format: &str, body: &str) -> (r: Result<Vec<String>, AppError>)
    ensures
        match simple_urls(format@, body@) {
            Some(urls) => r matches Ok(list) && views(list@) == urls,
            None => r matches Err(AppError::Internal(msg)) && (format@ != "json"@ ==> msg@
                == invalid_format_message(format@)),
        },
{
    let wanted: String = String::from_str(format);
    proof {
        reveal_strlit("json");
        reveal_strlit("opml");
        reveal_strlit("txt");
    }
    if wanted == String::from_str("json") {
        match read_json_strings(body) {
            Ok(list) => Ok(list),
            Err(e) => Err(AppError::Internal(json_error_text(&e))),
        }
    } else if wanted == String::from_str("txt") {
        Ok(parse_txt(body))
    } else if wanted == String::from_str("opml") {
        Ok(parse_opml(body))
    } else {
        Err(AppError::Internal(String::from_str("Invalid format: ").concat(format)))
    }
}

/// Answers a request for the subscriptions of one device of the caller in
/// a simple format. The device is registered if the user does not have it
/// yet. The request is refused, and nothing changes, when the caller is not
/// the user named in it.
pub fn get_subscriptions_simple(
    username: &str,
    device_id: &str,
    format: &str,
    auth: &AuthContext,
    device_service: &mut DeviceService,
    subscription_service: &SubscriptionService,
    now: i64,
) -> (r: Result<SimpleReply, AppError>)
    requires
        old(device_service).device_repo.wf(),
        subscription_service.sub_repo.wf(),
    ensures
        final(device_service).device_repo.wf(),
        if username@ != auth.username@ {
            &&& r matches Err(AppError::Authorization)
            &&& final(device_service).device_repo@ == old(device_service).device_repo@
        } else if find_named(old(device_service).device_repo@, auth.user_id, device_id@) is None
            && old(device_service).device_repo.next_device_id() >= i64::MAX {
            &&& r matches Err(AppError::Internal(msg)) && msg@
                == "Database error: "@ + "device keys are used up"@
            &&& final(device_service).device_repo@ == old(device_service).device_repo@
        } else {
            let device = match find_named(
                old(device_service).device_repo@,
                auth.user_id,
                device_id@,
            ) {
                Some(d) => d.id,
                None => old(device_service).device_repo.next_device_id() as i64,
            };
            simple_reply_matches(
                r,
                format@,
                answer(subscription_service.sub_repo@, auth.user_id, device, Selection::Current),
            )
        },
{
    if String::from_str(username) != auth.username {
        return Err(AppError::Authorization);
    }
    let device: i64 = match device_service.get_or_create_device(
        auth.user_id,
        device_id,
        None,
        None,
        now,
    ) {
        Ok(id) => id,
        Err(e) => {
            return Err(AppError::Internal(e.to_string()));
        },
    };
    let subscriptions: Vec<String> = subscription_service.get_subscriptions(auth.user_id, device);
    render_simple(format, subscriptions)
}

/// Answers a request for the feeds of all devices of the caller in a simple
/// format. The request is refused when the caller is not the user named in
/// it.
pub fn get_all_subscriptions_simple(
    username: &str,
    format: &str,
    auth: &AuthContext,
    subscription_service: &SubscriptionService,
) -> (r: Result<SimpleReply, AppError>)
    requires
        subscription_service.sub_repo.wf(),
    ensures
        if username@ != auth.username@ {
            r matches Err(AppError::Authorization)
        } else {
            simple_reply_matches(
                r,
                format@,
                answer(subscription_service.sub_repo@, auth.user_id, 0, Selection::AllOfUser),
            )
        },
{
    if String::from_str(username) != auth.username {
        return Err(AppError::Authorization);
    }
    let subscriptions: Vec<String> = subscription_service.get_all_subscriptions(auth.user_id);
    render_simple(format, subscriptions)
}

/// Replaces the subscriptions of one device of the caller by the feeds that
/// a body in a simple format names. Of the feeds named, those that are not
/// `http://` or `https://` URLs are left out and reported in `update_urls`.
/// The answer lists the feeds that were added and those that were removed.
///
/// The request is refused, and nothing changes, when the caller is not the
/// user named in it, or when the body cannot be read in the format named.
pub fn upload_subscriptions_simple(
    username: &str,
    device_id: &str,
    format: &str,
    auth: &AuthContext,
    device_service: &mut DeviceService,
    subscription_service: &mut SubscriptionService,
    body: &str,
    now: i64,
) -> (r: Result<SubscriptionListResponse, AppError>)
    requires
        old(device_service).device_repo.wf(),
        old(subscription_service).sub_repo.wf(),
    ensures
        final(device_service).device_repo.wf(),
        final(subscription_service).sub_repo.wf(),
        if username@ != auth.username@ {
            &&& r matches Err(AppError::Authorization)
            &&& final(subscription_service).sub_repo@ == old(subscription_service).sub_repo@
            &&& final(device_service).device_repo@ == old(device_service).device_repo@
        } else {
            match simple_urls(format@, body@) {
                None => {
                    &&& r matches Err(AppError::Internal(_))
                    &&& final(subscription_service).sub_repo@ == old(
                        subscription_service,
                    ).sub_repo@
                    &&& final(device_service).device_repo@ == old(device_service).device_repo@
                },
                Some(urls) => if find_named(
                    old(device_service).device_repo@,
                    auth.user_id,
                    device_id@,
                ) is None && old(device_service).device_repo.next_device_id() >= i64::MAX {
                    &&& r matches Err(AppError::Internal(msg)) && msg@
                        == "Database error: "@ + "device keys are used up"@
                    &&& final(subscription_service).sub_repo@ == old(
                        subscription_service,
                    ).sub_repo@
                    &&& final(device_service).device_repo@ == old(device_service).device_repo@
                } else {
                    let device = match find_named(
                        old(device_service).device_repo@,
                        auth.user_id,
                        device_id@,
                    ) {
                        Some(d) => d.id,
                        None => old(device_service).device_repo.next_device_id() as i64,
                    };
                    let before = answer(
                        old(subscription_service).sub_repo@,
                        auth.user_id,
                        device,
                        Selection::Current,
                    );
                    &&& r matches Ok(response)
                    &&& views(response.add@) == without(accepted(urls), before)
                    &&& views(response.remove@) == without(before, accepted(urls))
                    &&& response.timestamp == now
                    &&& pair_views(response.update_urls@) == rewrites(urls)
                    &&& final(subscription_service).sub_repo@ == reconciled(
                        old(subscription_service).sub_repo@,
                        auth.user_id,
                        device,
                        text_set(accepted(urls)),
                        now,
                    )
                    &&& current_urls(final(subscription_service).sub_repo@, auth.user_id, device)
                        == text_set(accepted(urls))
                },
            }
        },
{
    if String::from_str(username) != auth.username {
        return Err(AppError::Authorization);
    }
    let named: Vec<String> = match parse_simple(format, body) {
        Ok(list) => list,
        Err(e) => {
            return Err(e);
        },
    };
    let device: i64 = match device_service.get_or_create_device(
        auth.user_id,
        device_id,
        None,
        None,
        now,
    ) {
        Ok(id) => id,
        Err(e) => {
            return Err(AppError::Internal(e.to_string()));
        },
    };
    let (desired, update_urls) = accept_urls(&named);
    let (add, remove) = subscription_service.set_subscriptions(
        auth.user_id,
        device,
        desired,
        now,
    );
    Ok(SubscriptionListResponse { add, remove, timestamp: now, update_urls })
}

} // verus!
