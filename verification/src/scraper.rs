//! What the hidden scraper window reports: decoding the page title channel,
//! deciding when to show the window and when to stop waiting, removing
//! repeated links, and ranking the links so that the likeliest video comes
//! first.
use base64::Engine;
use vstd::prelude::*;
use vstd::utf8::{decode_utf8, valid_utf8};
use crate::commands::{parse_url, url_parse};
use crate::json::{as_string, json_array_of_text, json_get, json_str, parse_json_array, Json};
use crate::text::{
    chars_eq, chars_of, contains_chars, has_prefix, has_substring, lowercased, str_contains, str_eq,
    strip_prefix, to_lowercase,
};

verus! {

broadcast use vstd::seq_lib::group_seq_properties, vstd::seq_lib::group_to_multiset_ensures;

/// A link that the page referenced: `kind` is "iframe" or "media".
#[derive(Debug)]
pub struct ScrapedUrl {
    pub kind: String,
    pub url: String,
}

/// How likely a (lowercased) link is to be a media manifest or file:
/// HLS before DASH before MP4 before WebM before anything else.
pub open spec fn media_score(u: Seq<char>) -> int {
    if has_substring(u, ".m3u8"@) {
        0
    } else if has_substring(u, ".mpd"@) {
        1
    } else if has_substring(u, ".mp4"@) {
        2
    } else if has_substring(u, ".webm"@) {
        3
    } else {
        10
    }
}

/// Direct media links before player iframes.
pub open spec fn kind_score(kind: Seq<char>) -> int {
    if kind == "media"@ {
        0
    } else {
        5
    }
}

/// Analytics, advertising and social embeds go last.
pub open spec fn noise_score(u: Seq<char>) -> int {
    if has_substring(u, "googletag"@) || has_substring(u, "doubleclick"@) || has_substring(
        u,
        "facebook.com"@,
    ) || has_substring(u, "twitter.com"@) || has_substring(u, "disqus"@) || has_substring(
        u,
        "tracker"@,
    ) || has_substring(u, "analytics"@) {
        100
    } else {
        0
    }
}

/// The rank of a link of kind `kind` whose lowercased URL is `lower`.
pub open spec fn lowercase_rank(kind: Seq<char>, lower: Seq<char>) -> int {
    media_score(lower) + kind_score(kind) + noise_score(lower)
}

/// The rank of a link: smaller is tried first.
pub open spec fn rank_key(c: ScrapedUrl) -> int {
    lowercase_rank(c.kind@, lowercased(c.url@))
}

/// The lowercased URL names an analytics, advertising or social-embed host.
pub open spec fn noisy(u: Seq<char>) -> bool {
    ||| has_substring(u, "googletag"@)
    ||| has_substring(u, "doubleclick"@)
    ||| has_substring(u, "facebook.com"@)
    ||| has_substring(u, "twitter.com"@)
    ||| has_substring(u, "disqus"@)
    ||| has_substring(u, "tracker"@)
    ||| has_substring(u, "analytics"@)
}

/// Noise ranks last: a link whose lowercased URL names an analytics,
/// advertising or social-embed host ranks at 100 or more, whatever its kind;
/// every other link ranks below 100, a direct media manifest or file below
/// every player iframe.
pub proof fn lemma_noise_ranks_last(kind: Seq<char>, lower: Seq<char>)
    ensures
        noisy(lower) <==> lowercase_rank(kind, lower) >= 100,
        !noisy(lower) ==> lowercase_rank(kind, lower) <= 15,
        !noisy(lower) && kind == "media"@ ==> lowercase_rank(kind, lower) <= 10,
        !noisy(lower) && kind != "media"@ ==> lowercase_rank(kind, lower) >= 5,
        !noisy(lower) && has_substring(lower, ".m3u8"@) ==> lowercase_rank(kind, lower)
            == if kind == "media"@ {
            0int
        } else {
            5int
        },
{
}

/// In ranked links, every noisy link comes after every other link.
pub proof fn lemma_noisy_links_last(s: Seq<ScrapedUrl>, i: int, j: int)
    requires
        sorted_by_rank(s),
        0 <= i < j < s.len(),
        noisy(lowercased(s[i].url@)),
    ensures
        noisy(lowercased(s[j].url@)),
{
    lemma_noise_ranks_last(s[i].kind@, lowercased(s[i].url@));
    lemma_noise_ranks_last(s[j].kind@, lowercased(s[j].url@));
}

/// The links whose rank is `k`.
pub open spec fn rank_is(k: int) -> spec_fn(ScrapedUrl) -> bool {
    |c: ScrapedUrl| rank_key(c) == k
}

/// Ranks never decrease along `s`.
pub open spec fn sorted_by_rank(s: Seq<ScrapedUrl>) -> bool {
    forall|i: int, j: int| 0 <= i < j < s.len() ==> rank_key(s[i]) <= rank_key(s[j])
}

/// The rank of a link of kind `kind` whose URL, lowercased, is `lower`.
pub fn rank_of_lowercase(kind: &str, lower: &str) -> (r: u64)
    ensures
        r == lowercase_rank(kind@, lower@),
        noisy(lower@) <==> r >= 100,
{
    let u = chars_of(lower);
    let media: u64 = if contains_chars(&u, &chars_of(".m3u8")) {
        0
    } else if contains_chars(&u, &chars_of(".mpd")) {
        1
    } else if contains_chars(&u, &chars_of(".mp4")) {
        2
    } else if contains_chars(&u, &chars_of(".webm")) {
        3
    } else {
        10
    };
    let kind_part: u64 = if str_eq(kind, "media") {
        0
    } else {
        5
    };
    let noise: u64 = if contains_chars(&u, &chars_of("googletag")) || contains_chars(
        &u,
        &chars_of("doubleclick"),
    ) || contains_chars(&u, &chars_of("facebook.com")) || contains_chars(
        &u,
        &chars_of("twitter.com"),
    ) || contains_chars(&u, &chars_of("disqus")) || contains_chars(&u, &chars_of("tracker"))
        || contains_chars(&u, &chars_of("analytics")) {
        100
    } else {
        0
    };
    proof {
        lemma_noise_ranks_last(kind@, lower@);
    }
    media + kind_part + noise
}

/// The rank of one link, computed.
pub fn rank_score(c: &ScrapedUrl) -> (r: u64)
    ensures
        r == rank_key(*c),
{
    let lower = to_lowercase(c.url.as_str());
    rank_of_lowercase(c.kind.as_str(), lower.as_str())
}

/// Inserting `x` in front of a tail of larger-ranked links adds `x` to the
/// links of its own rank, at their end, and changes no other rank's links.
proof fn lemma_insert_filter(s: Seq<ScrapedUrl>, p: int, x: ScrapedUrl, k: int)
    requires
        0 <= p <= s.len(),
        forall|j: int| p <= j < s.len() ==> rank_key(s[j]) > rank_key(x),
    ensures
        s.insert(p, x).filter(rank_is(k)) == if rank_key(x) == k {
            s.filter(rank_is(k)).push(x)
        } else {
            s.filter(rank_is(k))
        },
{
    let pre = s.take(p);
    let post = s.skip(p);
    assert(s =~= pre + post);
    assert(s.insert(p, x) =~= pre + (seq![x] + post));
    Seq::filter_distributes_over_add(pre, post, rank_is(k));
    Seq::filter_distributes_over_add(pre, seq![x] + post, rank_is(k));
    Seq::filter_distributes_over_add(seq![x], post, rank_is(k));
    Seq::<ScrapedUrl>::empty().lemma_filter_push(x, rank_is(k));
    assert(Seq::<ScrapedUrl>::empty().push(x) =~= seq![x]);
    reveal(Seq::filter);
    assert(Seq::<ScrapedUrl>::empty().filter(rank_is(k)) =~= Seq::<ScrapedUrl>::empty());
    if rank_key(x) == k {
        assert(post.all(|c: ScrapedUrl| !rank_is(k)(c)));
        post.lemma_all_neg_filter_empty(rank_is(k));
        assert(post.filter(rank_is(k)) =~= Seq::<ScrapedUrl>::empty());
        assert(pre.filter(rank_is(k)) + (seq![x] + post.filter(rank_is(k))) =~= (pre.filter(
            rank_is(k),
        ) + post.filter(rank_is(k))).push(x));
    } else {
        assert(pre.filter(rank_is(k)) + (Seq::<ScrapedUrl>::empty() + post.filter(rank_is(k)))
            =~= pre.filter(rank_is(k)) + post.filter(rank_is(k)));
    }
}

/// Orders the links so that the likeliest real video comes first: a stable
/// sort by `rank_key`. The result holds the same links, its ranks never
/// decrease, and links of equal rank keep their relative order.
pub fn rank(candidates: &mut Vec<ScrapedUrl>)
    ensures
        final(candidates)@.to_multiset() == old(candidates)@.to_multiset(),
        sorted_by_rank(final(candidates)@),
        forall|k: int| #[trigger]
            final(candidates)@.filter(rank_is(k)) == old(candidates)@.filter(rank_is(k)),
{
    let ghost orig = candidates@;
    let mut input: Vec<ScrapedUrl> = Vec::new();
    std::mem::swap(&mut input, candidates);
    let n = input.len();
    let mut out: Vec<ScrapedUrl> = Vec::new();
    let mut keys: Vec<u64> = Vec::new();
    let mut i: usize = 0;
    assert(orig.skip(0) =~= orig);
    assert(orig.take(0) =~= Seq::<ScrapedUrl>::empty());
    reveal(Seq::filter);
    while i < n
        invariant
            n == orig.len(),
            i <= n,
            input@ == orig.skip(i as int),
            keys@.len() == out@.len(),
            forall|j: int| 0 <= j < out@.len() ==> keys@[j] == rank_key(#[trigger] out@[j]),
            sorted_by_rank(out@),
            out@.to_multiset() == orig.take(i as int).to_multiset(),
            forall|k: int| #[trigger] out@.filter(rank_is(k)) == orig.take(i as int).filter(rank_is(k)),
        decreases n - i,
    {
        let x = input.remove(0);
        assert(x == orig[i as int]);
        assert(input@ =~= orig.skip(i + 1));
        let kx = rank_score(&x);
        let mut p = out.len();
        while p > 0 && keys[p - 1] > kx
            invariant
                p <= out@.len(),
                keys@.len() == out@.len(),
                forall|j: int| p <= j < out@.len() ==> keys@[j] > kx,
            decreases p,
        {
            p -= 1;
        }
        let ghost before = out@;
        proof {
            assert forall|j: int| p <= j < before.len() implies rank_key(before[j]) > rank_key(x) by {
                assert(keys@[j] == rank_key(before[j]));
            }
            assert forall|k: int| #[trigger] before.insert(p as int, x).filter(rank_is(k))
                == orig.take(i + 1).filter(rank_is(k)) by {
                lemma_insert_filter(before, p as int, x, k);
                orig.take(i as int).lemma_filter_push(x, rank_is(k));
                assert(orig.take(i + 1) =~= orig.take(i as int).push(x));
            }
            assert(orig.take(i + 1) =~= orig.take(i as int).push(x));
            vstd::seq_lib::to_multiset_insert(before, p as int, x);
            vstd::seq_lib::to_multiset_build(orig.take(i as int), x);
        }
        out.insert(p, x);
        keys.insert(p, kx);
        proof {
            assert forall|a: int, b: int| 0 <= a < b < out@.len() implies rank_key(out@[a])
                <= rank_key(out@[b]) by {
                if b < p {
                } else if a > p {
                } else if a == p {
                    assert(out@[b] == before[b - 1]);
                    assert(keys@[b] == rank_key(before[b - 1]));
                } else {
                    if p > 0 {
                        assert(keys@[p - 1] <= kx);
                        assert(rank_key(before[a]) <= rank_key(before[p - 1]));
                    }
                    if b > p {
                        assert(out@[b] == before[b - 1]);
                    }
                }
            }
            assert forall|j: int| 0 <= j < out@.len() implies keys@[j] == rank_key(#[trigger] out@[j]) by {
                if j < p {
                } else if j > p {
                    assert(out@[j] == before[j - 1]);
                }
            }
        }
        i += 1;
    }
    assert(orig.take(n as int) =~= orig);
    *candidates = out;
}

/// Some link before position `i` of `s` has the same URL as `s[i]`.
pub open spec fn url_seen_before(s: Seq<ScrapedUrl>, i: int) -> bool {
    exists|j: int| 0 <= j < i && s[j].url@ == s[i].url@
}

/// The links of `s` whose URL did not occur earlier in `s`, in order.
pub open spec fn first_occurrences(s: Seq<ScrapedUrl>) -> Seq<ScrapedUrl>
    decreases s.len(),
{
    if s.len() == 0 {
        s
    } else {
        let rest = first_occurrences(s.drop_last());
        if url_seen_before(s, s.len() - 1) {
            rest
        } else {
            rest.push(s.last())
        }
    }
}

/// No two links of `s` share a URL.
pub open spec fn distinct_urls(s: Seq<ScrapedUrl>) -> bool {
    forall|i: int, j: int| 0 <= i < j < s.len() ==> s[i].url@ != s[j].url@
}

/// Some link of `s` has URL `u`.
pub open spec fn has_url(s: Seq<ScrapedUrl>, u: Seq<char>) -> bool {
    exists|m: int| 0 <= m < s.len() && (#[trigger] s[m]).url@ == u
}

/// Every link kept is a link of `s`.
pub proof fn lemma_first_occurrences_from(s: Seq<ScrapedUrl>)
    ensures
        first_occurrences(s).len() <= s.len(),
        forall|m: int| 0 <= m < first_occurrences(s).len() ==> s.contains(
            #[trigger] first_occurrences(s)[m],
        ),
    decreases s.len(),
{
    if s.len() > 0 {
        let t = s.drop_last();
        lemma_first_occurrences_from(t);
        let r = first_occurrences(t);
        let f = first_occurrences(s);
        assert forall|m: int| 0 <= m < f.len() implies s.contains(#[trigger] f[m]) by {
            if m < r.len() {
                assert(f[m] == r[m]);
                assert(t.contains(r[m]));
                let j = choose|j: int| 0 <= j < t.len() && t[j] == r[m];
                assert(s[j] == t[j]);
            } else {
                assert(s[s.len() - 1] == f[m]);
            }
        }
    }
}

/// Every URL of `s` is kept.
pub proof fn lemma_first_occurrences_cover(s: Seq<ScrapedUrl>)
    ensures
        forall|j: int| 0 <= j < s.len() ==> has_url(first_occurrences(s), (#[trigger] s[j]).url@),
    decreases s.len(),
{
    if s.len() > 0 {
        let t = s.drop_last();
        lemma_first_occurrences_cover(t);
        let r = first_occurrences(t);
        let f = first_occurrences(s);
        assert forall|j: int| 0 <= j < s.len() implies has_url(f, (#[trigger] s[j]).url@) by {
            if j < s.len() - 1 {
                assert(t[j] == s[j]);
                assert(has_url(r, t[j].url@));
                let m = choose|m: int| 0 <= m < r.len() && (#[trigger] r[m]).url@ == t[j].url@;
                assert(f[m] == r[m]);
            } else if url_seen_before(s, s.len() - 1) {
                let j2 = choose|j2: int| 0 <= j2 < s.len() - 1 && (#[trigger] s[j2]).url@ == s[s.len() - 1].url@;
                assert(t[j2] == s[j2]);
                assert(has_url(r, t[j2].url@));
                let m = choose|m: int| 0 <= m < r.len() && (#[trigger] r[m]).url@ == t[j2].url@;
                assert(f[m] == r[m]);
            } else {
                assert(f[r.len() as int] == s[j]);
            }
        }
    }
}

/// No URL is kept twice.
pub proof fn lemma_first_occurrences_distinct(s: Seq<ScrapedUrl>)
    ensures
        distinct_urls(first_occurrences(s)),
    decreases s.len(),
{
    if s.len() > 0 {
        let t = s.drop_last();
        lemma_first_occurrences_distinct(t);
        lemma_first_occurrences_from(t);
        let r = first_occurrences(t);
        let f = first_occurrences(s);
        if !url_seen_before(s, s.len() - 1) {
            assert forall|a: int, b: int| 0 <= a < b < f.len() implies f[a].url@ != f[b].url@ by {
                assert(f[a] == r[a]);
                if b == r.len() {
                    assert(t.contains(r[a]));
                    let j = choose|j: int| 0 <= j < t.len() && t[j] == r[a];
                    assert(s[j] == t[j]);
                } else {
                    assert(f[b] == r[b]);
                }
            }
        }
    }
}

/// Removes links whose URL already occurred earlier, keeping the order of
/// the rest.
pub fn dedup_by_url(items: Vec<ScrapedUrl>) -> (r: Vec<ScrapedUrl>)
    ensures
        r@ == first_occurrences(items@),
        distinct_urls(r@),
        forall|j: int| 0 <= j < items@.len() ==> has_url(r@, (#[trigger] items@[j]).url@),
{
    let ghost orig = items@;
    let mut input = items;
    let n = input.len();
    let mut out: Vec<ScrapedUrl> = Vec::new();
    let mut seen: Vec<Vec<char>> = Vec::new();
    let mut i: usize = 0;
    assert(orig.skip(0) =~= orig);
    assert(orig.take(0) =~= Seq::<ScrapedUrl>::empty());
    while i < n
        invariant
            n == orig.len(),
            i <= n,
            input@ == orig.skip(i as int),
            out@ == first_occurrences(orig.take(i as int)),
            seen@.len() == out@.len(),
            forall|j: int| 0 <= j < seen@.len() ==> (#[trigger] seen@[j])@ == out@[j].url@,
        decreases n - i,
    {
        let x = input.remove(0);
        assert(x == orig[i as int]);
        assert(input@ =~= orig.skip(i + 1));
        let xu = chars_of(x.url.as_str());
        let mut found = false;
        let mut j: usize = 0;
        while j < seen.len()
            invariant
                j <= seen@.len(),
                !found ==> forall|m: int| 0 <= m < j ==> (#[trigger] seen@[m])@ != xu@,
                found ==> exists|m: int| 0 <= m < seen@.len() && (#[trigger] seen@[m])@ == xu@,
            decreases seen@.len() - j,
        {
            if chars_eq(&seen[j], &xu) {
                found = true;
            }
            j += 1;
        }
        let ghost pre = orig.take(i as int);
        let ghost s1 = orig.take(i + 1);
        proof {
            assert(s1.drop_last() =~= pre);
            assert(s1.last() == x);
            if found {
                lemma_first_occurrences_from(pre);
                let m = choose|m: int| 0 <= m < seen@.len() && (#[trigger] seen@[m])@ == xu@;
                assert(out@[m].url@ == x.url@);
                assert(pre.contains(out@[m]));
                let j2 = choose|j2: int| 0 <= j2 < pre.len() && pre[j2] == out@[m];
                assert(s1[j2] == pre[j2]);
                assert(url_seen_before(s1, s1.len() - 1));
            } else {
                lemma_first_occurrences_cover(pre);
                assert forall|j2: int| 0 <= j2 < s1.len() - 1 implies (#[trigger] s1[j2]).url@ != s1[s1.len() - 1].url@ by {
                    assert(s1[j2] == pre[j2]);
                    assert(has_url(out@, pre[j2].url@));
                    let m = choose|m: int| 0 <= m < out@.len() && (#[trigger] out@[m]).url@ == pre[j2].url@;
                    assert(seen@[m]@ == out@[m].url@);
                }
            }
        }
        if !found {
            seen.push(xu);
            out.push(x);
        }
        i += 1;
    }
    assert(orig.take(n as int) =~= orig);
    proof {
        lemma_first_occurrences_distinct(orig);
        lemma_first_occurrences_cover(orig);
    }
    out
}

/// Some later link and `s` is already free of repeated URLs: removing
/// repeats changes nothing.
pub proof fn lemma_first_occurrences_of_distinct(s: Seq<ScrapedUrl>)
    requires
        distinct_urls(s),
    ensures
        first_occurrences(s) == s,
    decreases s.len(),
{
    if s.len() > 0 {
        let t = s.drop_last();
        assert(distinct_urls(t)) by {
            assert forall|a: int, b: int| 0 <= a < b < t.len() implies t[a].url@ != t[b].url@ by {
                assert(t[a] == s[a] && t[b] == s[b]);
            }
        }
        lemma_first_occurrences_of_distinct(t);
        assert(!url_seen_before(s, s.len() - 1));
        assert(t.push(s.last()) =~= s);
    }
}

/// Removing repeats keeps, in their order, exactly the links whose URL did
/// not occur earlier: the kept links sit at increasing positions `idx` of
/// `s`, each the first with its URL.
pub proof fn lemma_first_occurrences_in_order(s: Seq<ScrapedUrl>) -> (idx: Seq<int>)
    ensures
        idx.len() == first_occurrences(s).len(),
        forall|m: int| 0 <= m < idx.len() ==> 0 <= #[trigger] idx[m] < s.len() && s[idx[m]]
            == first_occurrences(s)[m],
        forall|m: int, n: int| 0 <= m < n < idx.len() ==> idx[m] < idx[n],
        forall|m: int, k: int|
            #![trigger s[k], idx[m]]
            0 <= m < idx.len() && 0 <= k < idx[m] ==> s[k].url@ != s[idx[m]].url@,
    decreases s.len(),
{
    if s.len() == 0 {
        Seq::empty()
    } else {
        let t = s.drop_last();
        let prev = lemma_first_occurrences_in_order(t);
        assert forall|m: int| 0 <= m < prev.len() implies 0 <= #[trigger] prev[m] < s.len() && s[prev[m]]
            == t[prev[m]] by {}
        if url_seen_before(s, s.len() - 1) {
            assert forall|m: int, k: int|
                #![trigger s[k], prev[m]]
                0 <= m < prev.len() && 0 <= k < prev[m] implies s[k].url@ != s[prev[m]].url@ by {
                assert(s[k] == t[k]);
                assert(s[prev[m]] == t[prev[m]]);
            }
            prev
        } else {
            let idx = prev.push(s.len() - 1);
            let f = first_occurrences(s);
            assert forall|m: int| 0 <= m < idx.len() implies 0 <= #[trigger] idx[m] < s.len() && s[idx[m]]
                == f[m] by {
                if m < prev.len() {
                    assert(idx[m] == prev[m]);
                }
            }
            assert forall|m: int, k: int|
                #![trigger s[k], idx[m]]
                0 <= m < idx.len() && 0 <= k < idx[m] implies s[k].url@ != s[idx[m]].url@ by {
                if m < prev.len() {
                    assert(idx[m] == prev[m]);
                    assert(s[k] == t[k]);
                    assert(s[prev[m]] == t[prev[m]]);
                }
            }
            idx
        }
    }
}

/// Removing repeated links twice is the same as removing them once.
pub proof fn lemma_dedup_idempotent(s: Seq<ScrapedUrl>)
    ensures
        first_occurrences(first_occurrences(s)) == first_occurrences(s),
{
    lemma_first_occurrences_distinct(s);
    lemma_first_occurrences_of_distinct(first_occurrences(s));
}

/// The order that ranking produces is the only one its contract allows: two
/// orders that are both sorted by rank and agree, for every rank, on the
/// links of that rank in their order, are equal. So ranking gives one answer
/// for a given input, and ranking already ranked links changes nothing.
pub proof fn lemma_rank_order_unique(a: Seq<ScrapedUrl>, b: Seq<ScrapedUrl>)
    requires
        sorted_by_rank(a),
        sorted_by_rank(b),
        forall|k: int| #[trigger] a.filter(rank_is(k)) == b.filter(rank_is(k)),
    ensures
        a == b,
    decreases a.len() + b.len(),
{
    broadcast use vstd::seq_lib::group_filter_ensures;
    if a.len() == 0 && b.len() == 0 {
        assert(a =~= b);
        return;
    }
    if a.len() == 0 || b.len() == 0 {
        let (x, y) = if a.len() == 0 { (b, a) } else { (a, b) };
        let k = rank_key(x[0]);
        x.lemma_filter_contains(rank_is(k), 0);
        assert(x.filter(rank_is(k)) == y.filter(rank_is(k)));
        reveal(Seq::filter);
        assert(y.filter(rank_is(k)).len() == 0);
        assert(false);
    }
    let ka = rank_key(a[0]);
    let kb = rank_key(b[0]);
    b.lemma_filter_contains(rank_is(kb), 0);
    assert(a.filter(rank_is(kb)) == b.filter(rank_is(kb)));
    a.lemma_filter_contains_rev(rank_is(kb), b[0]);
    let i = choose|i: int| 0 <= i < a.len() && a[i] == b[0];
    assert(rank_key(a[0]) <= rank_key(a[i]));
    a.lemma_filter_contains(rank_is(ka), 0);
    assert(a.filter(rank_is(ka)) == b.filter(rank_is(ka)));
    b.lemma_filter_contains_rev(rank_is(ka), a[0]);
    let j = choose|j: int| 0 <= j < b.len() && b[j] == a[0];
    assert(rank_key(b[0]) <= rank_key(b[j]));
    assert(ka == kb);
    let a1 = a.drop_first();
    let b1 = b.drop_first();
    assert(a =~= seq![a[0]] + a1);
    assert(b =~= seq![b[0]] + b1);
    a1.lemma_filter_prepend(a[0], rank_is(ka));
    b1.lemma_filter_prepend(b[0], rank_is(ka));
    assert(a.filter(rank_is(ka))[0] == a[0]);
    assert(b.filter(rank_is(ka))[0] == b[0]);
    assert(a[0] == b[0]);
    assert forall|k: int| #[trigger] a1.filter(rank_is(k)) == b1.filter(rank_is(k)) by {
        a1.lemma_filter_prepend(a[0], rank_is(k));
        b1.lemma_filter_prepend(b[0], rank_is(k));
        assert(a.filter(rank_is(k)) == b.filter(rank_is(k)));
        if rank_key(a[0]) == k {
            assert(a1.filter(rank_is(k)) =~= a.filter(rank_is(k)).drop_first());
            assert(b1.filter(rank_is(k)) =~= b.filter(rank_is(k)).drop_first());
        } else {
            assert(a1.filter(rank_is(k)) =~= a.filter(rank_is(k)));
            assert(b1.filter(rank_is(k)) =~= b.filter(rank_is(k)));
        }
    }
    assert(sorted_by_rank(a1)) by {
        assert forall|p: int, q: int| 0 <= p < q < a1.len() implies rank_key(a1[p]) <= rank_key(a1[q]) by {
            assert(a1[p] == a[p + 1] && a1[q] == a[q + 1]);
        }
    }
    assert(sorted_by_rank(b1)) by {
        assert forall|p: int, q: int| 0 <= p < q < b1.len() implies rank_key(b1[p]) <= rank_key(b1[q]) by {
            assert(b1[p] == b[p + 1] && b1[q] == b[q + 1]);
        }
    }
    lemma_rank_order_unique(a1, b1);
}

/// The error for a page URL that does not parse: the URL and the parse
/// error's text.
pub fn url_error_text(url: &str, error: &str) -> (r: String)
    ensures
        r@ == "invalid URL `"@ + url@ + "`: "@ + error@,
{
    let mut r = "invalid URL `".to_owned();
    r.append(url);
    r.append("`: ");
    r.append(error);
    r
}

/// Checks that the page to scrape has a URL that parses; otherwise the
/// error names the URL and the parse error (see `url_parse`).
pub fn check_page_url(url: &str) -> (r: Result<(), String>)
    ensures
        match url_parse(url@) {
            Ok(_) => r is Ok,
            Err(e) => r matches Err(m) && m@ == "invalid URL `"@ + url@ + "`: "@ + e,
        },
{
    match parse_url(url) {
        Ok(_) => Ok(()),
        Err(e) => Err(url_error_text(url, e.as_str())),
    }
}

/// The text of the page title while a bot check holds the page.
pub open spec fn is_challenge_title(t: Seq<char>) -> bool {
    has_substring(t, "Just a moment"@) || has_substring(t, "Cloudflare"@) || has_substring(
        t,
        "Attention Required"@,
    )
}

/// A title shows a bot check exactly when it mentions "Just a moment",
/// "Cloudflare" or "Attention Required".
pub proof fn lemma_challenge_titles(t: Seq<char>)
    ensures
        is_challenge_title(t) <==> has_substring(t, "Just a moment"@) || has_substring(
            t,
            "Cloudflare"@,
        ) || has_substring(t, "Attention Required"@),
{
}

/// Whether the title looks like a bot check that the user may have to solve.
pub fn challenge_title(title: &str) -> (r: bool)
    ensures
        r == is_challenge_title(title@),
{
    str_contains(title, "Just a moment") || str_contains(title, "Cloudflare") || str_contains(
        title,
        "Attention Required",
    )
}

/// The bytes that base64's standard engine decodes from this text (the
/// text's UTF-8 bytes are its input); `None` where decoding fails.
pub uninterp spec fn base64_decoded(text: Seq<char>) -> Option<Seq<u8>>;

/// Calls `base64::engine::general_purpose::STANDARD.decode`. Decoding is a
/// function of the input alone; its result is named `base64_decoded`.
#[verifier::external_body]
fn base64_decode(text: &str) -> (r: Option<Vec<u8>>)
    ensures
        r is Some <==> base64_decoded(text@) is Some,
        r matches Some(b) ==> b@ == base64_decoded(text@).unwrap(),
{
    base64::engine::general_purpose::STANDARD.decode(text).ok()
}

/// Calls `std::str::from_utf8`: it succeeds exactly on valid UTF-8, and then
/// holds the characters that the bytes encode.
#[verifier::external_body]
fn utf8_text(bytes: &[u8]) -> (r: Option<String>)
    ensures
        r is Some <==> valid_utf8(bytes@),
        r matches Some(s) ==> s@ == decode_utf8(bytes@),
{
    std::str::from_utf8(bytes).ok().map(|s| s.to_string())
}

/// A link as its kind and URL.
pub open spec fn link_view(c: ScrapedUrl) -> (Seq<char>, Seq<char>) {
    (c.kind@, c.url@)
}

/// The link that an element of the title's JSON array describes: an object
/// with string members `kind` and `url`.
pub open spec fn link_of_json(v: Json) -> Option<(Seq<char>, Seq<char>)> {
    match (json_str(json_get(v, "kind"@)), json_str(json_get(v, "url"@))) {
        (Some(k), Some(u)) => Some((k, u)),
        _ => None,
    }
}

/// `link_of_json` as a function value.
pub open spec fn link_reader() -> spec_fn(Json) -> Option<(Seq<char>, Seq<char>)> {
    |j: Json| link_of_json(j)
}

/// The marker in front of the base64 payload in the page title.
pub open spec fn title_marker() -> Seq<char> {
    "ANYVIDEO::"@
}

/// The links that the scraper script put in the page title: the title is the
/// marker followed by base64 of UTF-8 JSON, an array of link objects;
/// elements that are not link objects are skipped. `None` when the title
/// carries no such payload.
pub open spec fn title_links(title: Seq<char>) -> Option<Seq<(Seq<char>, Seq<char>)>> {
    if has_prefix(title, title_marker()) {
        match base64_decoded(title.subrange(title_marker().len() as int, title.len() as int)) {
            Some(bytes) => if valid_utf8(bytes) {
                match json_array_of_text(decode_utf8(bytes)) {
                    Some(items) => Some(items.filter_map(link_reader())),
                    None => None,
                }
            } else {
                None
            },
            None => None,
        }
    } else {
        None
    }
}

/// An element of the title's array describes a link exactly when it is an
/// object whose `kind` and `url` members are strings, and then it is that
/// kind and URL. A title without the `ANYVIDEO::` marker carries no links.
pub proof fn lemma_link_objects(v: Json, title: Seq<char>)
    ensures
        json_get(v, "kind"@) matches Some(Json::Str(k)) ==> (json_get(v, "url"@) matches Some(
            Json::Str(u),
        ) ==> link_of_json(v) == Some((k@, u@))),
        !(json_get(v, "kind"@) matches Some(Json::Str(_))) ==> link_of_json(v) is None,
        !(json_get(v, "url"@) matches Some(Json::Str(_))) ==> link_of_json(v) is None,
        !has_prefix(title, "ANYVIDEO::"@) ==> title_links(title) is None,
{
}

/// The link described by one element of the title's JSON array.
fn link_from_json(v: &Json) -> (r: Option<ScrapedUrl>)
    ensures
        r is Some <==> link_of_json(*v) is Some,
        r matches Some(c) ==> link_view(c) == link_of_json(*v).unwrap(),
{
    let kind = as_string(v.get("kind"));
    let url = as_string(v.get("url"));
    match (kind, url) {
        (Some(k), Some(u)) => Some(ScrapedUrl { kind: k, url: u }),
        _ => None,
    }
}

/// Reads the links out of the page title (see `title_links`).
pub fn decode_title(title: &str) -> (r: Option<Vec<ScrapedUrl>>)
    ensures
        r is Some <==> title_links(title@) is Some,
        r matches Some(v) ==> v@.map_values(|c: ScrapedUrl| link_view(c)) == title_links(
            title@,
        ).unwrap(),
{
    let t = chars_of(title);
    let rest = match strip_prefix(&t, "ANYVIDEO::") {
        Some(rest) => rest,
        None => {
            return None;
        },
    };
    let bytes = match base64_decode(rest.as_str()) {
        Some(b) => b,
        None => {
            return None;
        },
    };
    let text = match utf8_text(bytes.as_slice()) {
        Some(s) => s,
        None => {
            return None;
        },
    };
    let items = match parse_json_array(text.as_str()) {
        Some(items) => items,
        None => {
            return None;
        },
    };
    Some(links_of_items(&items))
}

/// The links that the elements of the title's JSON array describe, in
/// order; elements that are not link objects are skipped.
pub fn links_of_items(items: &Vec<Json>) -> (r: Vec<ScrapedUrl>)
    ensures
        r@.map_values(|c: ScrapedUrl| link_view(c)) == items@.filter_map(link_reader()),
{
    let ghost f = link_reader();
    let mut out: Vec<ScrapedUrl> = Vec::new();
    let n = items.len();
    let mut i: usize = 0;
    while i < n
        invariant
            n == items@.len(),
            i <= n,
            f == link_reader(),
            out@.map_values(|c: ScrapedUrl| link_view(c)) == items@.take(i as int).filter_map(f),
        decreases n - i,
    {
        proof {
            items@.lemma_filter_map_take_succ(f, i as int);
        }
        let ghost before = out@;
        match link_from_json(&items[i]) {
            Some(c) => {
                let ghost gc = c;
                assert(f(items@[i as int]) == Some(link_view(gc)));
                out.push(c);
                assert(out@ =~= before.push(gc));
                assert(out@.map_values(|c: ScrapedUrl| link_view(c)) =~= before.map_values(
                    |c: ScrapedUrl| link_view(c),
                ) + seq![link_view(gc)]);
            },
            None => {
                assert(Seq::<(Seq<char>, Seq<char>)>::empty() + before.map_values(|c: ScrapedUrl| link_view(c)) =~= before.map_values(|c: ScrapedUrl| link_view(c)));
            },
        }
        i += 1;
    }
    assert(items@.take(n as int) =~= items@);
    out
}

/// What the scraper has seen so far while it waits for the page: whether
/// the window was revealed, the links last decoded from the title, and when
/// (nanoseconds since the start) their number last grew.
#[derive(Debug)]
pub struct ScrapeWatch {
    /// How long, in nanoseconds, the scraper may wait in all.
    pub max_wait_ns: u64,
    pub shown: bool,
    pub found: Vec<ScrapedUrl>,
    pub last_progress_ns: u64,
}

/// What the waiting loop does after one look at the page title.
#[derive(Debug)]
pub struct WatchStep {
    /// Reveal the window so that the user can pass a bot check.
    pub show_window: bool,
    /// Stop waiting: links were found and none came for three seconds.
    pub stop: bool,
}

impl ScrapeWatch {
    /// Nothing seen yet, at the start of a wait of at most `max_wait_ns`
    /// nanoseconds.
    pub fn new(max_wait_ns: u64) -> (w: Self)
        ensures
            w.max_wait_ns == max_wait_ns,
            !w.shown,
            w.found@.len() == 0,
            w.last_progress_ns == 0,
    {
        ScrapeWatch { max_wait_ns, shown: false, found: Vec::new(), last_progress_ns: 0 }
    }

    /// Whether, `elapsed_ns` nanoseconds after the start, there is time left
    /// for another look.
    pub fn may_wait(&self, elapsed_ns: u64) -> (r: bool)
        ensures
            r == (elapsed_ns < self.max_wait_ns),
    {
        elapsed_ns < self.max_wait_ns
    }

    /// Records one look at the page, `elapsed_ns` nanoseconds after the
    /// start: `challenge` tells whether the title showed a bot check, and
    /// `links` holds the links decoded from it, if it carried a payload. The
    /// window is revealed once, when a bot check still shows after four
    /// seconds. Decoded links replace the earlier ones; their number growing
    /// counts as progress. Waiting stops once links are known and three
    /// seconds passed without progress.
    pub fn record_look(&mut self, elapsed_ns: u64, challenge: bool, links: Option<Vec<ScrapedUrl>>) -> (step: WatchStep)
        ensures
            step.show_window == (!old(self).shown && challenge && elapsed_ns > 4_000_000_000),
            final(self).shown == (old(self).shown || step.show_window),
            final(self).max_wait_ns == old(self).max_wait_ns,
            match links {
                Some(l) => {
                    &&& final(self).found == l
                    &&& final(self).last_progress_ns == if l@.len() > old(self).found@.len() {
                        elapsed_ns
                    } else {
                        old(self).last_progress_ns
                    }
                },
                None => {
                    &&& final(self).found == old(self).found
                    &&& final(self).last_progress_ns == old(self).last_progress_ns
                },
            },
            step.stop == (final(self).found@.len() > 0 && elapsed_ns >= final(self).last_progress_ns
                && elapsed_ns - final(self).last_progress_ns > 3_000_000_000),
    {
        let show = !self.shown && challenge && elapsed_ns > 4_000_000_000;
        if show {
            self.shown = true;
        }
        match links {
            Some(parsed) => {
                if parsed.len() > self.found.len() {
                    self.last_progress_ns = elapsed_ns;
                }
                self.found = parsed;
            },
            None => {},
        }
        let stop = self.found.len() > 0 && elapsed_ns >= self.last_progress_ns && elapsed_ns
            - self.last_progress_ns > 3_000_000_000;
        WatchStep { show_window: show, stop }
    }

    /// Takes one look at the title, `elapsed_ns` nanoseconds after the start
    /// (see `record_look`): the title shows a bot check when
    /// `is_challenge_title` holds, and carries the links `title_links`.
    pub fn observe(&mut self, elapsed_ns: u64, title: &str) -> (step: WatchStep)
        ensures
            step.show_window == (!old(self).shown && is_challenge_title(title@) && elapsed_ns
                > 4_000_000_000),
            final(self).shown == (old(self).shown || step.show_window),
            final(self).max_wait_ns == old(self).max_wait_ns,
            match title_links(title@) {
                Some(links) => {
                    &&& final(self).found@.map_values(|c: ScrapedUrl| link_view(c)) == links
                    &&& final(self).last_progress_ns == if links.len() > old(self).found@.len() {
                        elapsed_ns
                    } else {
                        old(self).last_progress_ns
                    }
                },
                None => {
                    &&& final(self).found@ == old(self).found@
                    &&& final(self).last_progress_ns == old(self).last_progress_ns
                },
            },
            step.stop == (final(self).found@.len() > 0 && elapsed_ns >= final(self).last_progress_ns
                && elapsed_ns - final(self).last_progress_ns > 3_000_000_000),
    {
        let challenge = challenge_title(title);
        let links = decode_title(title);
        proof {
            if links is Some {
                let v = links->Some_0;
                assert(v@.len() == v@.map_values(|c: ScrapedUrl| link_view(c)).len());
            }
        }
        self.record_look(elapsed_ns, challenge, links)
    }

    /// The links found, each URL once, in the order first seen.
    pub fn finish(self) -> (r: Vec<ScrapedUrl>)
        ensures
            r@ == first_occurrences(self.found@),
            distinct_urls(r@),
    {
        dedup_by_url(self.found)
    }
}

} // verus!
