use any_video::commands::{
    direct_outcome, ext_from_lowercase, ext_from_url, extract_title_from_url, synthesize_meta,
    title_from_host, AutoProbe,
};
use any_video::json::{Json, JsonNumber};
use any_video::scraper::{check_page_url, url_error_text, ScrapedUrl};
use any_video::sidecar::{sidecar_candidates, target_triple};
use any_video::ytdlp::{
    download_argv, parse_format, parse_meta, probe_argv, probe_argv_with_referer, probe_result, VideoMeta, BROWSER_UA,
    OUTPUT_TEMPLATE,
};

fn link(kind: &str, url: &str) -> ScrapedUrl {
    ScrapedUrl { kind: kind.to_string(), url: url.to_string() }
}

const META: &str = r#"{
  "_type": "video", "title": "A clip", "thumbnail": "https://i/t.jpg", "duration": 12.5,
  "uploader": null, "channel": "chan", "playlist_count": 4294967301,
  "formats": [
    {"format_id": "18", "ext": "mp4", "width": 640, "height": 360, "fps": 30, "vcodec": "avc1",
     "acodec": "mp4a", "filesize": null, "filesize_approx": 999, "tbr": 500.5, "format_note": "360p"},
    {"ext": "webm"},
    {"format_id": "hls-1", "resolution": "1280x720", "filesize_approx": 1234},
    {"format_id": "audio", "resolution": 7, "width": 10}
  ]
}"#;

fn probe_ok(json: &str) -> VideoMeta {
    probe_result("https://site/v", true, json.as_bytes(), "").expect("meta")
}

#[test]
fn metadata_is_read_with_its_fallbacks() {
    let m = probe_ok(META);
    assert_eq!(m.url, "https://site/v");
    assert_eq!(m.title, "A clip");
    assert_eq!(m.thumbnail.as_deref(), Some("https://i/t.jpg"));
    assert_eq!(m.duration_bits.map(f64::from_bits), Some(12.5));
    assert_eq!(m.uploader, None);
    assert!(!m.is_playlist);
    assert_eq!(m.playlist_count, Some(5));
    assert_eq!(m.formats.len(), 3);
    let f = &m.formats[0];
    assert_eq!(f.id, "18");
    assert_eq!(f.ext, "mp4");
    assert_eq!(f.resolution.as_deref(), Some("640x360"));
    assert_eq!(f.fps_bits.map(f64::from_bits), Some(30.0));
    assert_eq!(f.vcodec.as_deref(), Some("avc1"));
    assert_eq!(f.acodec.as_deref(), Some("mp4a"));
    assert_eq!(f.filesize, None);
    assert_eq!(f.tbr_bits.map(f64::from_bits), Some(500.5));
    assert_eq!(f.note.as_deref(), Some("360p"));
    let g = &m.formats[1];
    assert_eq!(g.id, "hls-1");
    assert_eq!(g.ext, "");
    assert_eq!(g.resolution.as_deref(), Some("1280x720"));
    assert_eq!(g.filesize, Some(1234));
    assert_eq!(m.formats[2].resolution, None);
}

#[test]
fn metadata_defaults() {
    let m = probe_ok(r#"{"_type":"playlist","channel":"c"}"#);
    assert_eq!(m.title, "Untitled");
    assert!(m.is_playlist);
    assert_eq!(m.uploader.as_deref(), Some("c"));
    assert!(m.formats.is_empty());
    assert_eq!(m.playlist_count, None);
    let n = probe_ok("[1,2]");
    assert_eq!(n.title, "Untitled");
    assert!(n.formats.is_empty());
}

#[test]
fn probe_failures_are_reported() {
    let e = probe_result("u", false, b"", "  ERROR: Unsupported URL: u \n").unwrap_err();
    assert_eq!(e, "yt-dlp failed: ERROR: Unsupported URL: u");
    let e = probe_result("u", true, b"not json", "").unwrap_err();
    assert_eq!(e, "parsing yt-dlp JSON");
}

#[test]
fn probe_command_line() {
    let a = probe_argv("/bin/yt-dlp", "-https://x");
    assert_eq!(a.len(), 13);
    assert_eq!(a[0], "/bin/yt-dlp");
    assert_eq!(a[1], "-J");
    assert_eq!(a[8], BROWSER_UA);
    assert_eq!(a[11], "--");
    assert_eq!(a[12], "-https://x");
    assert!(BROWSER_UA.contains("537.36 (KHTML, like Gecko)"));
}

#[test]
fn download_command_line() {
    let a = download_argv("/b/yt-dlp", "/b/ffmpeg", "https://v", "137+140", "/home/u/Videos");
    assert_eq!(a.len(), 25);
    assert_eq!(a[0], "/b/yt-dlp");
    assert_eq!(a[5], "--progress-template");
    assert!(a[6].starts_with("download:{\"id\":\"%(info.id)s\""));
    assert_eq!(a[8], "/b/ffmpeg");
    assert_eq!(a[16], "10");
    assert_eq!(a[19], "-f");
    assert_eq!(a[20], "137+140");
    assert_eq!(a[21], "-o");
    let sep = std::path::MAIN_SEPARATOR;
    assert_eq!(a[22], format!("/home/u/Videos{sep}{OUTPUT_TEMPLATE}"));
    assert_eq!(a[23], "--");
    assert_eq!(a[24], "https://v");
}

#[test]
fn extensions_from_urls() {
    assert_eq!(ext_from_url("https://c/Master.M3U8?t=1").as_deref(), Some("mp4"));
    assert_eq!(ext_from_url("https://c/a.mpd").as_deref(), Some("mpd"));
    assert_eq!(ext_from_url("https://c/a.WEBM").as_deref(), Some("webm"));
    assert_eq!(ext_from_url("https://c/seg.ts").as_deref(), Some("ts"));
    assert_eq!(ext_from_url("https://c/page"), None);
}

#[test]
fn titles_from_urls() {
    assert_eq!(extract_title_from_url("https://www.Example.com/watch?v=1"), "www.example.com");
    assert_eq!(extract_title_from_url("not a url"), "video");
    assert_eq!(extract_title_from_url("file:///tmp/x.mp4"), "video");
}

fn meta_with_formats(n: usize) -> VideoMeta {
    let mut m = synthesize_meta("https://p/", "https://c/a.mp4");
    if n == 0 {
        m.formats.clear();
    }
    m
}

#[test]
fn direct_probe_decides() {
    assert!(direct_outcome(Ok(meta_with_formats(1))).is_ok());
    assert_eq!(direct_outcome(Ok(meta_with_formats(0))).unwrap_err(), None);
    assert_eq!(direct_outcome(Err("boom".to_string())).unwrap_err(), Some("boom".to_string()));
}

#[test]
fn no_candidates_gives_the_direct_error() {
    let e = AutoProbe::begin("https://p/", Some("boom".to_string()), vec![]).err().unwrap();
    assert_eq!(e, "boom");
    let e = AutoProbe::begin("https://p/", None, vec![]).err().unwrap();
    assert_eq!(e, "이 페이지에서 영상 후보를 찾지 못했습니다.");
}

#[test]
fn candidates_are_probed_best_first() {
    let mut p = AutoProbe::begin(
        "https://www.site.org/page",
        None,
        vec![link("iframe", "https://player/e"), link("media", "https://c/v.m3u8")],
    )
    .unwrap();
    assert_eq!(p.current().as_deref(), Some("https://c/v.m3u8"));
    assert!(p.record(Err("403".to_string())).is_none());
    assert_eq!(p.current().as_deref(), Some("https://player/e"));
    assert!(p.record(Ok(meta_with_formats(0))).is_none());
    assert_eq!(p.current(), None);
    assert_eq!(p.last_err.as_deref(), Some("403"));
    let m = p.give_up().unwrap();
    assert_eq!(m.url, "https://c/v.m3u8");
    assert_eq!(m.title, "www.site.org");
    assert_eq!(m.formats.len(), 1);
    assert_eq!(m.formats[0].id, "best");
    assert_eq!(m.formats[0].ext, "mp4");
    assert_eq!(m.formats[0].note.as_deref(), Some("스캐너가 찾은 직접 링크"));
}

#[test]
fn usable_candidate_wins() {
    let mut p = AutoProbe::begin("https://p/", None, vec![link("iframe", "https://e/1")]).unwrap();
    let m = p.record(Ok(meta_with_formats(1))).unwrap();
    assert_eq!(m.formats.len(), 1);
}

#[test]
fn fallback_without_media_is_an_error() {
    let p = AutoProbe::begin("bad url", None, vec![link("iframe", "https://e/1.webm"), link("iframe", "https://e/2")])
        .unwrap();
    assert_eq!(p.give_up().err().as_deref(), Some("이 페이지에서 다운로드 가능한 영상을 찾지 못했습니다."));
    let mut q = AutoProbe::begin("https://p/", None, vec![link("iframe", "https://e/1")]).unwrap();
    assert!(q.record(Err("HTTP 403".to_string())).is_none());
    assert_eq!(q.give_up().err().as_deref(), Some("HTTP 403"));
}

#[test]
fn fallback_synthesizes_from_a_media_link() {
    let p = AutoProbe::begin("bad url", None, vec![link("iframe", "https://e/1"), link("media", "https://e/v.WEBM")])
        .unwrap();
    let m = p.give_up().unwrap();
    assert_eq!(m.url, "https://e/v.WEBM");
    assert_eq!(m.title, "video");
    assert_eq!(m.formats[0].ext, "webm");
}

#[test]
fn triples() {
    assert_eq!(target_triple("macos", "aarch64"), Some("aarch64-apple-darwin"));
    assert_eq!(target_triple("macos", "x86_64"), Some("x86_64-apple-darwin"));
    assert_eq!(target_triple("windows", "x86_64"), Some("x86_64-pc-windows-msvc"));
    assert_eq!(target_triple("linux", "x86_64"), Some("x86_64-unknown-linux-gnu"));
    assert_eq!(target_triple("linux", "aarch64"), Some("aarch64-unknown-linux-gnu"));
    assert_eq!(target_triple("freebsd", "x86_64"), None);
}

#[test]
fn sidecar_places() {
    let sep = std::path::MAIN_SEPARATOR;
    let c = sidecar_candidates("/app/bin", "yt-dlp", false, "x86_64-unknown-linux-gnu");
    assert_eq!(c[0], format!("/app/bin{sep}yt-dlp"));
    assert_eq!(c[1], format!("/app/bin{sep}yt-dlp"));
    assert_eq!(c[2], format!("/app/bin{sep}yt-dlp-x86_64-unknown-linux-gnu"));
    let w = sidecar_candidates("/app/bin/", "ffmpeg", true, "x86_64-pc-windows-msvc");
    assert_eq!(w[1], "/app/bin/ffmpeg.exe");
}

#[test]
fn extensions_from_lowercased_urls() {
    assert_eq!(ext_from_lowercase("https://c/a.m3u8").as_deref(), Some("mp4"));
    assert_eq!(ext_from_lowercase("https://c/a.mpd?x.mp4").as_deref(), Some("mpd"));
    assert_eq!(ext_from_lowercase("https://c/a.mp4").as_deref(), Some("mp4"));
    assert_eq!(ext_from_lowercase("https://c/A.WEBM"), None);
}

#[test]
fn titles_from_hosts() {
    assert_eq!(title_from_host(Some("cdn.example".to_string())), "cdn.example");
    assert_eq!(title_from_host(None), "video");
}

fn num(n: u64) -> Json {
    Json::Number(JsonNumber { as_u64: Some(n), as_f64_bits: Some((n as f64).to_bits()) })
}

fn text(x: &str) -> Json {
    Json::Str(x.to_string())
}

fn member(k: &str, v: Json) -> (String, Json) {
    (k.to_string(), v)
}

#[test]
fn metadata_from_a_json_value() {
    let v = Json::Object(vec![
        member("title", text("T")),
        member("uploader", Json::Null),
        member("channel", text("c")),
        member("duration", num(7)),
        member(
            "formats",
            Json::Array(vec![
                Json::Object(vec![member("format_id", text("1")), member("width", num(3)), member("height", num(4))]),
                Json::Object(vec![member("format_id", num(2))]),
            ]),
        ),
    ]);
    let m = parse_meta("u", &v).unwrap();
    assert_eq!(m.url, "u");
    assert_eq!(m.title, "T");
    assert_eq!(m.uploader, None);
    assert_eq!(m.duration_bits.map(f64::from_bits), Some(7.0));
    assert_eq!(m.formats.len(), 1);
    assert_eq!(m.formats[0].resolution.as_deref(), Some("3x4"));
}

#[test]
fn format_needs_an_id() {
    assert!(parse_format(&Json::Object(vec![member("ext", text("mp4"))])).is_none());
    assert!(parse_format(&Json::Null).is_none());
    let f = parse_format(&Json::Object(vec![
        member("format_id", text("x")),
        member("filesize", Json::Null),
        member("filesize_approx", num(5)),
        member("width", num(3)),
    ]))
    .unwrap();
    assert_eq!(f.filesize, None);
    assert_eq!(f.resolution, None);
    assert_eq!(f.ext, "");
}

#[test]
fn probe_with_referer_command_line() {
    let a = probe_argv_with_referer("/bin/yt-dlp", "https://c/v.m3u8", "https://site/page");
    assert_eq!(a.len(), 15);
    assert_eq!(a[0], "/bin/yt-dlp");
    assert_eq!(a[11], "--referer");
    assert_eq!(a[12], "https://site/page");
    assert_eq!(a[13], "--");
    assert_eq!(a[14], "https://c/v.m3u8");
}

#[test]
fn page_urls_are_checked() {
    assert!(check_page_url("https://www.example.com/watch").is_ok());
    let e = check_page_url("not a url").unwrap_err();
    assert!(e.starts_with("invalid URL `not a url`: "));
    assert!(e.len() > "invalid URL `not a url`: ".len());
    assert_eq!(url_error_text("u", "bad"), "invalid URL `u`: bad");
}
