use any_video::json::{Json, JsonNumber};
use any_video::scraper::{
    challenge_title, decode_title, dedup_by_url, links_of_items, rank, rank_of_lowercase, rank_score,
    ScrapeWatch, ScrapedUrl,
};

fn link(kind: &str, url: &str) -> ScrapedUrl {
    ScrapedUrl { kind: kind.to_string(), url: url.to_string() }
}

fn urls(v: &[ScrapedUrl]) -> Vec<String> {
    v.iter().map(|c| c.url.clone()).collect()
}

// Standard base64 of `s`, written out so the test does not lean on the decoder it checks.
fn b64(s: &str) -> String {
    const T: &[u8; 64] = b"ABCDEFGHIJKLMNOPQRSTUVWXYZabcdefghijklmnopqrstuvwxyz0123456789+/";
    let b = s.as_bytes();
    let mut out = String::new();
    for chunk in b.chunks(3) {
        let n = (chunk[0] as u32) << 16
            | (*chunk.get(1).unwrap_or(&0) as u32) << 8
            | *chunk.get(2).unwrap_or(&0) as u32;
        out.push(T[(n >> 18) as usize & 63] as char);
        out.push(T[(n >> 12) as usize & 63] as char);
        out.push(if chunk.len() > 1 { T[(n >> 6) as usize & 63] as char } else { '=' });
        out.push(if chunk.len() > 2 { T[n as usize & 63] as char } else { '=' });
    }
    out
}

#[test]
fn rank_scores_follow_the_heuristic() {
    assert_eq!(rank_score(&link("media", "https://cdn.example/a.m3u8")), 0);
    assert_eq!(rank_score(&link("media", "https://cdn.example/a.mpd")), 1);
    assert_eq!(rank_score(&link("media", "https://cdn.example/a.MP4?x=1")), 2);
    assert_eq!(rank_score(&link("media", "https://cdn.example/a.webm")), 3);
    assert_eq!(rank_score(&link("iframe", "https://player.example/embed/1")), 15);
    assert_eq!(rank_score(&link("iframe", "https://www.Facebook.com/plugins/video")), 115);
    assert_eq!(rank_score(&link("media", "https://tracker.example/x.m3u8")), 100);
}

#[test]
fn rank_puts_manifests_first_and_is_stable() {
    let mut v = vec![
        link("iframe", "https://player.example/embed/1"),
        link("media", "https://www.googletagmanager.com/gtag.js"),
        link("media", "https://cdn.example/b.mp4"),
        link("media", "https://cdn.example/master.m3u8"),
        link("iframe", "https://player.example/embed/2"),
        link("media", "https://cdn.example/c.mp4"),
    ];
    rank(&mut v);
    assert_eq!(
        urls(&v),
        vec![
            "https://cdn.example/master.m3u8",
            "https://cdn.example/b.mp4",
            "https://cdn.example/c.mp4",
            "https://player.example/embed/1",
            "https://player.example/embed/2",
            "https://www.googletagmanager.com/gtag.js",
        ]
    );
}

#[test]
fn rank_of_empty_and_ranked_lists() {
    let mut v: Vec<ScrapedUrl> = Vec::new();
    rank(&mut v);
    assert!(v.is_empty());
    let mut w = vec![link("media", "https://a/x.m3u8"), link("iframe", "https://b/")];
    rank(&mut w);
    rank(&mut w);
    assert_eq!(urls(&w), vec!["https://a/x.m3u8", "https://b/"]);
}

#[test]
fn dedup_keeps_first_occurrence_in_order() {
    let v = vec![
        link("iframe", "https://a/"),
        link("media", "https://b/x.m3u8"),
        link("media", "https://a/"),
        link("media", "https://c/y.mp4"),
        link("iframe", "https://b/x.m3u8"),
    ];
    let d = dedup_by_url(v);
    assert_eq!(urls(&d), vec!["https://a/", "https://b/x.m3u8", "https://c/y.mp4"]);
    assert_eq!(d[0].kind, "iframe");
    let again = dedup_by_url(d);
    assert_eq!(urls(&again), vec!["https://a/", "https://b/x.m3u8", "https://c/y.mp4"]);
}

#[test]
fn challenge_titles() {
    assert!(challenge_title("Just a moment..."));
    assert!(challenge_title("Attention Required! | Cloudflare"));
    assert!(!challenge_title("My video page"));
}

#[test]
fn title_payload_decodes_links() {
    let json = r#"[{"kind":"iframe","url":"https://p/e"},{"kind":"media","url":"https://c/v.m3u8"},{"url":"no-kind"},42]"#;
    let title = format!("ANYVIDEO::{}", b64(json));
    let links = decode_title(&title).expect("payload");
    assert_eq!(links.len(), 2);
    assert_eq!(links[0].kind, "iframe");
    assert_eq!(links[0].url, "https://p/e");
    assert_eq!(links[1].kind, "media");
    assert_eq!(links[1].url, "https://c/v.m3u8");
}

#[test]
fn title_without_payload_decodes_nothing() {
    assert!(decode_title("Some page").is_none());
    assert!(decode_title("ANYVIDEO::***").is_none());
    let not_array = format!("ANYVIDEO::{}", b64(r#"{"kind":"media","url":"u"}"#));
    assert!(decode_title(&not_array).is_none());
    let empty = format!("ANYVIDEO::{}", b64("[]"));
    assert_eq!(decode_title(&empty).unwrap().len(), 0);
}

#[test]
fn watch_shows_window_for_challenges_after_four_seconds() {
    let mut w = ScrapeWatch::new(20_000_000_000);
    let s = w.observe(1_000_000_000, "Just a moment...");
    assert!(!s.show_window);
    assert!(!s.stop);
    let s = w.observe(4_500_000_000, "Just a moment...");
    assert!(s.show_window);
    assert!(w.shown);
    let s = w.observe(5_000_000_000, "Just a moment...");
    assert!(!s.show_window);
}

#[test]
fn watch_stops_three_seconds_after_last_progress() {
    let mut w = ScrapeWatch::new(20_000_000_000);
    let one = format!("ANYVIDEO::{}", b64(r#"[{"kind":"media","url":"https://c/a.m3u8"}]"#));
    let two = format!(
        "ANYVIDEO::{}",
        b64(r#"[{"kind":"media","url":"https://c/a.m3u8"},{"kind":"media","url":"https://c/a.m3u8"}]"#)
    );
    let s = w.observe(700_000_000, &one);
    assert!(!s.stop);
    assert_eq!(w.last_progress_ns, 700_000_000);
    let s = w.observe(1_400_000_000, &two);
    assert!(!s.stop);
    assert_eq!(w.last_progress_ns, 1_400_000_000);
    let s = w.observe(4_400_000_000, &two);
    assert!(!s.stop);
    let s = w.observe(4_400_000_001, "unrelated title");
    assert!(s.stop);
    assert_eq!(w.found.len(), 2);
    let found = w.finish();
    assert_eq!(urls(&found), vec!["https://c/a.m3u8"]);
}

#[test]
fn watch_never_stops_without_links() {
    let mut w = ScrapeWatch::new(20_000_000_000);
    let s = w.observe(19_000_000_000, "Loading");
    assert!(!s.stop);
    assert!(w.finish().is_empty());
}

#[test]
fn rank_of_lowercased_urls() {
    assert_eq!(rank_of_lowercase("media", "https://c/a.m3u8"), 0);
    assert_eq!(rank_of_lowercase("iframe", "https://c/a.mpd"), 6);
    assert_eq!(rank_of_lowercase("media", "https://disqus.com/embed.js"), 110);
    // Only lowercase text matches: the caller lowercases first.
    assert_eq!(rank_of_lowercase("media", "https://c/A.MP4"), 10);
}

fn obj(members: &[(&str, Json)]) -> Json {
    Json::Object(members.iter().map(|(k, v)| (k.to_string(), clone_json(v))).collect())
}

fn clone_json(v: &Json) -> Json {
    match v {
        Json::Null => Json::Null,
        Json::Bool(b) => Json::Bool(*b),
        Json::Number(n) => Json::Number(JsonNumber { as_u64: n.as_u64, as_f64_bits: n.as_f64_bits }),
        Json::Str(s) => Json::Str(s.clone()),
        Json::Array(a) => Json::Array(a.iter().map(clone_json).collect()),
        Json::Object(m) => Json::Object(m.iter().map(|(k, x)| (k.clone(), clone_json(x))).collect()),
    }
}

fn s(x: &str) -> Json {
    Json::Str(x.to_string())
}

#[test]
fn link_objects_become_links() {
    let items = vec![
        obj(&[("kind", s("media")), ("url", s("https://c/v.mp4"))]),
        obj(&[("url", s("https://c/no-kind"))]),
        obj(&[("kind", Json::Null), ("url", s("https://c/null-kind"))]),
        s("https://not-an-object"),
        obj(&[("url", s("https://p/e")), ("kind", s("iframe")), ("extra", Json::Bool(true))]),
    ];
    let links = links_of_items(&items);
    assert_eq!(urls(&links), vec!["https://c/v.mp4", "https://p/e"]);
    assert_eq!(links[1].kind, "iframe");
    assert!(links_of_items(&Vec::new()).is_empty());
}

#[test]
fn looks_are_recorded() {
    let mut w = ScrapeWatch::new(20_000_000_000);
    let s1 = w.record_look(5_000_000_000, true, None);
    assert!(s1.show_window);
    assert!(!s1.stop);
    let s2 = w.record_look(6_000_000_000, true, Some(vec![link("media", "https://c/a.mp4")]));
    assert!(!s2.show_window);
    assert_eq!(w.last_progress_ns, 6_000_000_000);
    let s3 = w.record_look(7_000_000_000, false, Some(vec![link("media", "https://c/b.mp4")]));
    assert!(!s3.stop);
    assert_eq!(w.last_progress_ns, 6_000_000_000);
    assert_eq!(urls(&w.found), vec!["https://c/b.mp4"]);
    let s4 = w.record_look(9_000_000_001, false, None);
    assert!(s4.stop);
}

#[test]
fn the_wait_is_capped() {
    let w = ScrapeWatch::new(20_000_000_000);
    assert!(w.may_wait(0));
    assert!(w.may_wait(19_999_999_999));
    assert!(!w.may_wait(20_000_000_000));
}
