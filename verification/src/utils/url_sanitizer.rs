//! Feed URL sanitation: only `http://` and `https://` URLs are kept; anything
//! else is replaced by the empty string and reported as a rewrite.

use vstd::prelude::*;
use crate::text::{is_prefix, starts_with, views};

verus! {

/// The URL uses one of the two accepted schemes.
pub open spec fn is_http_url(url: Seq<char>) -> bool {
    is_prefix("http://"@, url) || is_prefix("https://"@, url)
}

/// What a URL is rewritten to: itself when accepted, the empty string otherwise.
pub open spec fn sanitized(url: Seq<char>) -> Seq<char> {
    if is_http_url(url) {
        url
    } else {
        Seq::empty()
    }
}

/// The URL is changed by sanitation.
pub open spec fn is_rewritten(url: Seq<char>) -> bool {
    sanitized(url) != url
}

/// The `[given, rewritten]` pairs of the URLs that sanitation changes, in
/// the order of the input.
pub open spec fn rewrites(urls: Seq<Seq<char>>) -> Seq<Seq<Seq<char>>>
    decreases urls.len(),
{
    if urls.len() == 0 {
        Seq::empty()
    } else {
        let rest = rewrites(urls.drop_last());
        let u = urls.last();
        if is_rewritten(u) {
            rest.push(seq![u, sanitized(u)])
        } else {
            rest
        }
    }
}

/// The view of a list of rewrite pairs.
pub open spec fn pair_views(pairs: Seq<[String; 2]>) -> Seq<Seq<Seq<char>>> {
    Seq::new(pairs.len(), |i: int| views(pairs[i]@))
}

/// Keeps a URL that starts with `http://` or `https://` and turns any other
/// into the empty string.
pub fn sanitize_url(url: &str) -> (r: String)
    ensures
        r@ == sanitized(url@),
{
    if starts_with(url, "http://") || starts_with(url, "https://") {
        String::from_str(url)
    } else {
        String::new()
    }
}

/// Sanitizes each URL of a list. Returns the sanitized URLs, one per input
/// and in the same order, and the `[given, rewritten]` pair of each URL
/// that was changed.
pub fn sanitize_urls(urls: &[String]) -> (r: (Vec<String>, Vec<[String; 2]>))
    ensures
        r.0@.len() == urls@.len(),
        forall|i: int| 0 <= i < urls@.len() ==> (#[trigger] r.0@[i])@ == sanitized(urls@[i]@),
        pair_views(r.1@) == rewrites(views(urls@)),
{
    let mut sanitized_urls: Vec<String> = Vec::new();
    let mut updates: Vec<[String; 2]> = Vec::new();
    let mut i: usize = 0;
    proof {
        assert(views(urls@).take(0) =~= Seq::empty());
        assert(pair_views(updates@) =~= Seq::empty());
    }
    while i < urls.len()
        invariant
            i <= urls@.len(),
            sanitized_urls@.len() == i,
            forall|j: int| 0 <= j < i ==> (#[trigger] sanitized_urls@[j])@ == sanitized(urls@[j]@),
            pair_views(updates@) == rewrites(views(urls@).take(i as int)),
        decreases urls@.len() - i,
    {
        let url: &String = &urls[i];
        let sanitized_url: String = sanitize_url(url.as_str());
        proof {
            let all = views(urls@);
            assert(all.take(i + 1).drop_last() =~= all.take(i as int));
            assert(all.take(i + 1).last() == url@);
        }
        if *url != sanitized_url {
            let ghost before = updates@;
            let pair: [String; 2] = [url.clone(), sanitized_url.clone()];
            updates.push(pair);
            proof {
                assert(views(pair@) =~= seq![url@, sanitized(url@)]);
                assert(pair_views(updates@) =~= pair_views(before).push(views(pair@)));
            }
        }
        sanitized_urls.push(sanitized_url);
        i += 1;
    }
    proof {
        assert(views(urls@).take(urls@.len() as int) =~= views(urls@));
    }
    (sanitized_urls, updates)
}

} // verus!
