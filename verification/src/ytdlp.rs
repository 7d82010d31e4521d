//! yt-dlp: the command lines the app runs, and how its JSON metadata and
//! exit status become a `VideoMeta`.
use vstd::prelude::*;
use vstd::string::StringExecFns;
use crate::json::{
    as_f64_bits, as_string, as_u64, json_array, json_f64_bits, json_get, json_of_bytes, json_str,
    json_u64, parse_json_bytes, Json,
};
use crate::text::{
    decimal, decimal_string, join_path, opt_view, push_char, string_views, trim, trimmed,
};

verus! {

/// A desktop Chrome user agent; many sites refuse yt-dlp's own.
pub const BROWSER_UA: &'static str =
    "Mozilla/5.0 (Macintosh; Intel Mac OS X 10_15_7) AppleWebKit/537.36 (KHTML, like Gecko) Chrome/126.0.0.0 Safari/537.36";

/// The language header sent with every request.
pub const ACCEPT_LANGUAGE: &'static str = "Accept-Language: en-US,en;q=0.9,ko;q=0.8";

/// One progress line per update, `download:` followed by a JSON object.
pub const PROGRESS_TEMPLATE: &'static str =
    "download:{\"id\":\"%(info.id)s\",\"downloaded\":%(progress.downloaded_bytes)s,\"total\":%(progress.total_bytes,progress.total_bytes_estimate)s,\"speed\":%(progress.speed)s,\"eta\":%(progress.eta)s,\"status\":\"%(progress.status)s\",\"filename\":\"%(progress.filename)s\"}";

/// The file name of a download inside the output folder.
pub const OUTPUT_TEMPLATE: &'static str = "%(title).100B [%(id)s].%(ext)s";

/// One format that yt-dlp offers. Floating-point figures (`fps`, `tbr`) are
/// kept as the bit patterns of their `f64` values.
#[derive(Debug)]
pub struct VideoFormat {
    pub id: String,
    pub ext: String,
    pub resolution: Option<String>,
    pub fps_bits: Option<u64>,
    pub vcodec: Option<String>,
    pub acodec: Option<String>,
    pub filesize: Option<u64>,
    pub tbr_bits: Option<u64>,
    pub note: Option<String>,
}

/// One progress update of a download, as yt-dlp prints it after
/// `download:`. `speed_bits` and `eta_bits` are bit patterns of `f64`s.
#[derive(Debug)]
pub struct ProgressLine {
    pub downloaded: Option<u64>,
    pub total: Option<u64>,
    pub speed_bits: Option<u64>,
    pub eta_bits: Option<u64>,
    pub filename: Option<String>,
}

/// A `VideoFormat` as characters and numbers.
pub struct VideoFormatView {
    pub id: Seq<char>,
    pub ext: Seq<char>,
    pub resolution: Option<Seq<char>>,
    pub fps_bits: Option<u64>,
    pub vcodec: Option<Seq<char>>,
    pub acodec: Option<Seq<char>>,
    pub filesize: Option<u64>,
    pub tbr_bits: Option<u64>,
    pub note: Option<Seq<char>>,
}

impl View for VideoFormat {
    type V = VideoFormatView;

    open spec fn view(&self) -> VideoFormatView {
        VideoFormatView {
            id: self.id@,
            ext: self.ext@,
            resolution: opt_view(self.resolution),
            fps_bits: self.fps_bits,
            vcodec: opt_view(self.vcodec),
            acodec: opt_view(self.acodec),
            filesize: self.filesize,
            tbr_bits: self.tbr_bits,
            note: opt_view(self.note),
        }
    }
}

/// What yt-dlp reports about a video. `duration_bits` is the bit pattern of
/// an `f64` number of seconds.
#[derive(Debug)]
pub struct VideoMeta {
    pub url: String,
    pub title: String,
    pub thumbnail: Option<String>,
    pub duration_bits: Option<u64>,
    pub uploader: Option<String>,
    pub formats: Vec<VideoFormat>,
    pub is_playlist: bool,
    pub playlist_count: Option<u32>,
}

/// A `VideoMeta` as characters and numbers.
pub struct VideoMetaView {
    pub url: Seq<char>,
    pub title: Seq<char>,
    pub thumbnail: Option<Seq<char>>,
    pub duration_bits: Option<u64>,
    pub uploader: Option<Seq<char>>,
    pub formats: Seq<VideoFormatView>,
    pub is_playlist: bool,
    pub playlist_count: Option<u32>,
}

impl View for VideoMeta {
    type V = VideoMetaView;

    open spec fn view(&self) -> VideoMetaView {
        VideoMetaView {
            url: self.url@,
            title: self.title@,
            thumbnail: opt_view(self.thumbnail),
            duration_bits: self.duration_bits,
            uploader: opt_view(self.uploader),
            formats: self.formats@.map_values(|f: VideoFormat| f@),
            is_playlist: self.is_playlist,
            playlist_count: self.playlist_count,
        }
    }
}

/// `v[key]`, or `v[fallback]` when `v` has no member `key` at all.
pub open spec fn get_or(v: Json, key: Seq<char>, fallback: Seq<char>) -> Option<Json> {
    match json_get(v, key) {
        Some(x) => Some(x),
        None => json_get(v, fallback),
    }
}

/// The resolution of a format: its `resolution` string, else `WxH` from
/// integer `width` and `height`.
pub open spec fn resolution_of(v: Json) -> Option<Seq<char>> {
    match json_str(json_get(v, "resolution"@)) {
        Some(r) => Some(r),
        None => match (json_u64(json_get(v, "width"@)), json_u64(json_get(v, "height"@))) {
            (Some(w), Some(h)) => Some(decimal(w as nat) + seq!['x'] + decimal(h as nat)),
            _ => None,
        },
    }
}

/// The format that one element of yt-dlp's `formats` array describes; only
/// elements with a string `format_id` describe one.
pub open spec fn format_of_json(v: Json) -> Option<VideoFormatView> {
    match json_str(json_get(v, "format_id"@)) {
        Some(id) => Some(
            VideoFormatView {
                id,
                ext: match json_str(json_get(v, "ext"@)) {
                    Some(e) => e,
                    None => Seq::empty(),
                },
                resolution: resolution_of(v),
                fps_bits: json_f64_bits(json_get(v, "fps"@)),
                vcodec: json_str(json_get(v, "vcodec"@)),
                acodec: json_str(json_get(v, "acodec"@)),
                filesize: json_u64(get_or(v, "filesize"@, "filesize_approx"@)),
                tbr_bits: json_f64_bits(json_get(v, "tbr"@)),
                note: json_str(json_get(v, "format_note"@)),
            },
        ),
        None => None,
    }
}

/// `format_of_json` as a function value.
pub open spec fn format_reader() -> spec_fn(Json) -> Option<VideoFormatView> {
    |j: Json| format_of_json(j)
}

/// The metadata that yt-dlp's JSON `v` describes for the video at `url`.
pub open spec fn meta_of_json(url: Seq<char>, v: Json) -> VideoMetaView {
    VideoMetaView {
        url,
        title: match json_str(json_get(v, "title"@)) {
            Some(t) => t,
            None => "Untitled"@,
        },
        thumbnail: json_str(json_get(v, "thumbnail"@)),
        duration_bits: json_f64_bits(json_get(v, "duration"@)),
        uploader: json_str(get_or(v, "uploader"@, "channel"@)),
        formats: match json_array(json_get(v, "formats"@)) {
            Some(items) => items.filter_map(format_reader()),
            None => Seq::empty(),
        },
        is_playlist: json_str(json_get(v, "_type"@)) == Some("playlist"@),
        playlist_count: match json_u64(json_get(v, "playlist_count"@)) {
            Some(n) => Some(n as u32),
            None => None,
        },
    }
}

/// What yt-dlp's metadata gives, member by member: the title when it is a
/// string, else "Untitled"; the uploader when `uploader` is a string, the
/// channel when `uploader` is absent and `channel` is a string, and none
/// otherwise; the thumbnail when it is a string; a playlist exactly when
/// `_type` is the string "playlist"; and the URL asked about.
pub proof fn lemma_meta_members(url: Seq<char>, v: Json)
    ensures
        meta_of_json(url, v).url == url,
        json_get(v, "title"@) matches Some(Json::Str(t)) ==> meta_of_json(url, v).title == t@,
        !(json_get(v, "title"@) matches Some(Json::Str(_))) ==> meta_of_json(url, v).title
            == "Untitled"@,
        json_get(v, "uploader"@) matches Some(Json::Str(u)) ==> meta_of_json(url, v).uploader
            == Some(u@),
        json_get(v, "uploader"@) matches Some(x) && !(x is Str) ==> meta_of_json(url, v).uploader
            is None,
        json_get(v, "uploader"@) is None ==> meta_of_json(url, v).uploader == match json_get(
            v,
            "channel"@,
        ) {
            Some(Json::Str(c)) => Some(c@),
            _ => None,
        },
        json_get(v, "thumbnail"@) matches Some(Json::Str(t)) ==> meta_of_json(url, v).thumbnail
            == Some(t@),
        !(json_get(v, "thumbnail"@) matches Some(Json::Str(_))) ==> meta_of_json(
            url,
            v,
        ).thumbnail is None,
        meta_of_json(url, v).is_playlist <==> (json_get(v, "_type"@) matches Some(Json::Str(t))
            && t@ == "playlist"@),
        !(json_get(v, "formats"@) matches Some(Json::Array(_))) ==> meta_of_json(url, v).formats.len()
            == 0,
{
}

/// What one element of `formats` gives, member by member: nothing without a
/// string `format_id`; else that id, the `ext` string or "", the
/// `resolution` string when there is one, and the size from `filesize`, or
/// from `filesize_approx` only when `filesize` is absent.
pub proof fn lemma_format_members(v: Json)
    ensures
        !(json_get(v, "format_id"@) matches Some(Json::Str(_))) ==> format_of_json(v) is None,
        json_get(v, "format_id"@) matches Some(Json::Str(id)) ==> {
            let f = format_of_json(v);
            &&& f is Some
            &&& f->Some_0.id == id@
            &&& (json_get(v, "ext"@) matches Some(Json::Str(e)) ==> f->Some_0.ext == e@)
            &&& (!(json_get(v, "ext"@) matches Some(Json::Str(_))) ==> f->Some_0.ext.len() == 0)
            &&& (json_get(v, "resolution"@) matches Some(Json::Str(r)) ==> f->Some_0.resolution
                == Some(r@))
            &&& (json_get(v, "filesize"@) matches Some(Json::Number(n)) ==> f->Some_0.filesize
                == n.as_u64)
            &&& (json_get(v, "filesize"@) is None ==> f->Some_0.filesize == match json_get(
                v,
                "filesize_approx"@,
            ) {
                Some(Json::Number(n)) => n.as_u64,
                _ => None,
            })
        },
{
}

/// Reads one element of yt-dlp's `formats` array (see `format_of_json`).
pub fn parse_format(v: &Json) -> (r: Option<VideoFormat>)
    ensures
        r is Some <==> format_of_json(*v) is Some,
        r matches Some(f) ==> f@ == format_of_json(*v).unwrap(),
{
    let id = match as_string(v.get("format_id")) {
        Some(id) => id,
        None => {
            return None;
        },
    };
    let ext = match as_string(v.get("ext")) {
        Some(e) => e,
        None => String::new(),
    };
    let resolution = match as_string(v.get("resolution")) {
        Some(r) => Some(r),
        None => match (as_u64(v.get("width")), as_u64(v.get("height"))) {
            (Some(w), Some(h)) => {
                let mut s = decimal_string(w);
                push_char(&mut s, 'x');
                let hs = decimal_string(h);
                s.append(hs.as_str());
                Some(s)
            },
            _ => None,
        },
    };
    let size_field = v.get("filesize");
    let size_field = if size_field.is_some() {
        size_field
    } else {
        v.get("filesize_approx")
    };
    let r = VideoFormat {
            id,
            ext,
            resolution,
            fps_bits: as_f64_bits(v.get("fps")),
            vcodec: as_string(v.get("vcodec")),
            acodec: as_string(v.get("acodec")),
            filesize: as_u64(size_field),
            tbr_bits: as_f64_bits(v.get("tbr")),
            note: as_string(v.get("format_note")),
        };
    let ghost spec_f = format_of_json(*v).unwrap();
    assert(r.id@ == spec_f.id);
    assert(r.ext@ == spec_f.ext);
    assert(opt_view(r.resolution) == spec_f.resolution);
    assert(r.filesize == spec_f.filesize);
    assert(opt_view(r.note) == spec_f.note);
    Some(r)
}

/// Reads yt-dlp's JSON for the video at `url` (see `meta_of_json`). It never
/// fails.
pub fn parse_meta(url: &str, v: &Json) -> (r: Result<VideoMeta, String>)
    ensures
        r matches Ok(m) && m@ == meta_of_json(url@, *v),
{
    let type_field = as_string(v.get("_type"));
    let is_playlist = match type_field {
        Some(t) => crate::text::str_eq(t.as_str(), "playlist"),
        None => false,
    };
    let title = match as_string(v.get("title")) {
        Some(t) => t,
        None => "Untitled".to_owned(),
    };
    let thumbnail = as_string(v.get("thumbnail"));
    let duration_bits = as_f64_bits(v.get("duration"));
    let up = v.get("uploader");
    let up = if up.is_some() {
        up
    } else {
        v.get("channel")
    };
    let uploader = as_string(up);
    let mut formats: Vec<VideoFormat> = Vec::new();
    let ghost f = format_reader();
    match v.get("formats") {
        Some(Json::Array(items)) => {
            let n = items.len();
            let mut i: usize = 0;
            while i < n
                invariant
                    n == items@.len(),
                    i <= n,
                    f == format_reader(),
                    formats@.map_values(|x: VideoFormat| x@) == items@.take(i as int).filter_map(f),
                decreases n - i,
            {
                proof {
                    items@.lemma_filter_map_take_succ(f, i as int);
                }
                let ghost before = formats@;
                match parse_format(&items[i]) {
                    Some(fmt) => {
                        let ghost g = fmt;
                        formats.push(fmt);
                        assert(formats@ =~= before.push(g));
                        assert(formats@.map_values(|x: VideoFormat| x@) =~= before.map_values(
                            |x: VideoFormat| x@,
                        ) + seq![g@]);
                    },
                    None => {
                        assert(Seq::<VideoFormatView>::empty() + before.map_values(
                            |x: VideoFormat| x@,
                        ) =~= before.map_values(|x: VideoFormat| x@));
                    },
                }
                i += 1;
            }
            assert(items@.take(n as int) =~= items@);
        },
        _ => {
            assert(formats@.map_values(|x: VideoFormat| x@) =~= Seq::<VideoFormatView>::empty());
        },
    }
    let playlist_count = match as_u64(v.get("playlist_count")) {
        Some(n) => Some(#[verifier::truncate] (n as u32)),
        None => None,
    };
    let m = VideoMeta {
        url: url.to_owned(),
        title,
        thumbnail,
        duration_bits,
        uploader,
        formats,
        is_playlist,
        playlist_count,
    };
    let ghost want = meta_of_json(url@, *v);
    assert(m@.title == want.title);
    assert(m@.uploader == want.uploader);
    assert(m@.formats == want.formats);
    assert(m@.is_playlist == want.is_playlist);
    assert(m@.playlist_count == want.playlist_count);
    Ok(m)
}

/// The arguments that ask yt-dlp for the metadata of `url` as JSON.
pub open spec fn probe_args(bin: Seq<char>, url: Seq<char>) -> Seq<Seq<char>> {
    seq![
        bin,
        "-J"@,
        "--no-playlist"@,
        "--no-warnings"@,
        "--ignore-config"@,
        "--extractor-args"@,
        "generic:impersonate"@,
        "--user-agent"@,
        BROWSER_UA@,
        "--add-header"@,
        ACCEPT_LANGUAGE@,
        "--"@,
        url,
    ]
}

/// The command line (program first) that asks the yt-dlp at `bin` for the
/// metadata of `url`: single video, no warnings, no user config, browser
/// impersonation, and `url` after `--` so that it is never read as an option.
pub fn probe_argv(bin: &str, url: &str) -> (r: Vec<String>)
    ensures
        r@.len() == 13,
        r@[2]@ == "--no-playlist"@,
        string_views(r@) == probe_args(bin@, url@),
{
    let mut v: Vec<String> = Vec::new();
    v.push(bin.to_owned());
    v.push("-J".to_owned());
    v.push("--no-playlist".to_owned());
    v.push("--no-warnings".to_owned());
    v.push("--ignore-config".to_owned());
    v.push("--extractor-args".to_owned());
    v.push("generic:impersonate".to_owned());
    v.push("--user-agent".to_owned());
    v.push(BROWSER_UA.to_owned());
    v.push("--add-header".to_owned());
    v.push(ACCEPT_LANGUAGE.to_owned());
    v.push("--".to_owned());
    v.push(url.to_owned());
    assert(string_views(v@) =~= probe_args(bin@, url@));
    v
}

/// The arguments that ask yt-dlp for the metadata of `url`, fetched with
/// `referer` as the page that links to it.
pub open spec fn probe_args_with_referer(bin: Seq<char>, url: Seq<char>, referer: Seq<char>) -> Seq<
    Seq<char>,
> {
    seq![
        bin,
        "-J"@,
        "--no-playlist"@,
        "--no-warnings"@,
        "--ignore-config"@,
        "--extractor-args"@,
        "generic:impersonate"@,
        "--user-agent"@,
        BROWSER_UA@,
        "--add-header"@,
        ACCEPT_LANGUAGE@,
        "--referer"@,
        referer,
        "--"@,
        url,
    ]
}

/// The command line (program first) that asks the yt-dlp at `bin` for the
/// metadata of a link `url` found on the page `referer`: as `probe_argv`,
/// and the request names the page as its referer, which CDNs that serve
/// only their own sites' pages ask for.
pub fn probe_argv_with_referer(bin: &str, url: &str, referer: &str) -> (r: Vec<String>)
    ensures
        r@.len() == 15,
        r@[2]@ == "--no-playlist"@,
        string_views(r@) == probe_args_with_referer(bin@, url@, referer@),
{
    let mut v: Vec<String> = Vec::new();
    v.push(bin.to_owned());
    v.push("-J".to_owned());
    v.push("--no-playlist".to_owned());
    v.push("--no-warnings".to_owned());
    v.push("--ignore-config".to_owned());
    v.push("--extractor-args".to_owned());
    v.push("generic:impersonate".to_owned());
    v.push("--user-agent".to_owned());
    v.push(BROWSER_UA.to_owned());
    v.push("--add-header".to_owned());
    v.push(ACCEPT_LANGUAGE.to_owned());
    v.push("--referer".to_owned());
    v.push(referer.to_owned());
    v.push("--".to_owned());
    v.push(url.to_owned());
    assert(string_views(v@) =~= probe_args_with_referer(bin@, url@, referer@));
    v
}

/// The arguments of a download, given the output path `out`.
pub open spec fn download_args(
    yt_dlp: Seq<char>,
    ffmpeg: Seq<char>,
    url: Seq<char>,
    format_id: Seq<char>,
    out: Seq<char>,
) -> Seq<Seq<char>> {
    seq![
        yt_dlp,
        "--no-playlist"@,
        "--no-warnings"@,
        "--ignore-config"@,
        "--newline"@,
        "--progress-template"@,
        PROGRESS_TEMPLATE@,
        "--ffmpeg-location"@,
        ffmpeg,
        "--extractor-args"@,
        "generic:impersonate"@,
        "--user-agent"@,
        BROWSER_UA@,
        "--add-header"@,
        ACCEPT_LANGUAGE@,
        "--retries"@,
        "10"@,
        "--fragment-retries"@,
        "10"@,
        "-f"@,
        format_id,
        "-o"@,
        out,
        "--"@,
        url,
    ]
}

/// The command line (program first) that downloads `url` in format
/// `format_id` into `output_dir` with the yt-dlp at `yt_dlp`, muxing with
/// the ffmpeg at `ffmpeg`: one progress line per update, retries, browser
/// impersonation, the output template inside `output_dir`, and `url` last,
/// after `--`.
pub fn download_argv(
    yt_dlp: &str,
    ffmpeg: &str,
    url: &str,
    format_id: &str,
    output_dir: &str,
) -> (r: Vec<String>)
    ensures
        r@.len() == 25,
        r@[1]@ == "--no-playlist"@,
        string_views(r@) == download_args(yt_dlp@, ffmpeg@, url@, format_id@, r@[22]@),
        !crate::text::verbatim(output_dir@) ==> crate::text::joined_path(
            output_dir@,
            OUTPUT_TEMPLATE@,
            r@[22]@,
        ),
{
    let template = join_path(output_dir, OUTPUT_TEMPLATE);
    let ghost t = template@;
    proof {
        reveal_strlit("%(title).100B [%(id)s].%(ext)s");
    }
    assert(crate::text::plain_component(OUTPUT_TEMPLATE@));
    let mut v: Vec<String> = Vec::new();
    v.push(yt_dlp.to_owned());
    v.push("--no-playlist".to_owned());
    v.push("--no-warnings".to_owned());
    v.push("--ignore-config".to_owned());
    v.push("--newline".to_owned());
    v.push("--progress-template".to_owned());
    v.push(PROGRESS_TEMPLATE.to_owned());
    v.push("--ffmpeg-location".to_owned());
    v.push(ffmpeg.to_owned());
    v.push("--extractor-args".to_owned());
    v.push("generic:impersonate".to_owned());
    v.push("--user-agent".to_owned());
    v.push(BROWSER_UA.to_owned());
    v.push("--add-header".to_owned());
    v.push(ACCEPT_LANGUAGE.to_owned());
    v.push("--retries".to_owned());
    v.push("10".to_owned());
    v.push("--fragment-retries".to_owned());
    v.push("10".to_owned());
    v.push("-f".to_owned());
    v.push(format_id.to_owned());
    v.push("-o".to_owned());
    v.push(template);
    v.push("--".to_owned());
    v.push(url.to_owned());
    assert(v@[22]@ == t);
    assert(string_views(v@) =~= download_args(yt_dlp@, ffmpeg@, url@, format_id@, t));
    v
}

/// Both yt-dlp command lines ask for the single video only: each holds
/// `--no-playlist` among its options, and `--yes-playlist` occurs in none
/// except where the caller's own text (program, ffmpeg path, format, output
/// path, referer or URL) is placed.
pub proof fn lemma_single_video_only(
    yt_dlp: Seq<char>,
    ffmpeg: Seq<char>,
    url: Seq<char>,
    format_id: Seq<char>,
    out: Seq<char>,
    referer: Seq<char>,
)
    ensures
        download_args(yt_dlp, ffmpeg, url, format_id, out)[1] == "--no-playlist"@,
        probe_args(yt_dlp, url)[2] == "--no-playlist"@,
        probe_args_with_referer(yt_dlp, url, referer)[2] == "--no-playlist"@,
        forall|i: int|
            0 <= i < 25 && #[trigger] download_args(yt_dlp, ffmpeg, url, format_id, out)[i]
                == "--yes-playlist"@ ==> i == 0 || i == 8 || i == 20 || i == 22 || i == 24,
        forall|i: int|
            0 <= i < 13 && #[trigger] probe_args(yt_dlp, url)[i] == "--yes-playlist"@ ==> i == 0
                || i == 12,
        forall|i: int|
            0 <= i < 15 && #[trigger] probe_args_with_referer(yt_dlp, url, referer)[i]
                == "--yes-playlist"@ ==> i == 0 || i == 12 || i == 14,
{
    reveal_strlit("--yes-playlist");
    reveal_strlit("--no-playlist");
    reveal_strlit("-J");
    reveal_strlit("--no-warnings");
    reveal_strlit("--ignore-config");
    reveal_strlit("--newline");
    reveal_strlit("--progress-template");
    reveal_strlit("--ffmpeg-location");
    reveal_strlit("--extractor-args");
    reveal_strlit("generic:impersonate");
    reveal_strlit("--user-agent");
    reveal_strlit("--add-header");
    reveal_strlit("--retries");
    reveal_strlit("10");
    reveal_strlit("--fragment-retries");
    reveal_strlit("-f");
    reveal_strlit("-o");
    reveal_strlit("--");
    reveal_strlit("--referer");
    reveal_strlit(
        "Mozilla/5.0 (Macintosh; Intel Mac OS X 10_15_7) AppleWebKit/537.36 (KHTML, like Gecko) Chrome/126.0.0.0 Safari/537.36",
    );
    reveal_strlit("Accept-Language: en-US,en;q=0.9,ko;q=0.8");
    reveal_strlit(
        "download:{\"id\":\"%(info.id)s\",\"downloaded\":%(progress.downloaded_bytes)s,\"total\":%(progress.total_bytes,progress.total_bytes_estimate)s,\"speed\":%(progress.speed)s,\"eta\":%(progress.eta)s,\"status\":\"%(progress.status)s\",\"filename\":\"%(progress.filename)s\"}",
    );
    let d = download_args(yt_dlp, ffmpeg, url, format_id, out);
    let p = probe_args(yt_dlp, url);
    let q = probe_args_with_referer(yt_dlp, url, referer);
    assert forall|i: int| 0 <= i < 25 && #[trigger] d[i] == "--yes-playlist"@ implies i == 0 || i == 8
        || i == 20 || i == 22 || i == 24 by {
        if i == 1 {
            assert(d[1].len() != 14);
        } else if i == 2 {
            assert(d[2].len() != 14);
        } else if i == 3 {
            assert(d[3].len() != 14);
        } else if i == 4 {
            assert(d[4].len() != 14);
        } else if i == 5 {
            assert(d[5].len() != 14);
        } else if i == 6 {
            assert(d[6].len() != 14);
        } else if i == 7 {
            assert(d[7].len() != 14);
        } else if i == 9 {
            assert(d[9].len() != 14);
        } else if i == 10 {
            assert(d[10].len() != 14);
        } else if i == 11 {
            assert(d[11].len() != 14);
        } else if i == 12 {
            assert(d[12].len() != 14);
        } else if i == 13 {
            assert(d[13].len() != 14);
        } else if i == 14 {
            assert(d[14].len() != 14);
        } else if i == 15 {
            assert(d[15].len() != 14);
        } else if i == 16 {
            assert(d[16].len() != 14);
        } else if i == 17 {
            assert(d[17].len() != 14);
        } else if i == 18 {
            assert(d[18].len() != 14);
        } else if i == 19 {
            assert(d[19].len() != 14);
        } else if i == 21 {
            assert(d[21].len() != 14);
        } else if i == 23 {
            assert(d[23].len() != 14);
        }
    }
    assert forall|i: int| 0 <= i < 13 && #[trigger] p[i] == "--yes-playlist"@ implies i == 0 || i
        == 12 by {
        if i == 1 {
            assert(p[1].len() != 14);
        } else if i == 2 {
            assert(p[2].len() != 14);
        } else if i == 3 {
            assert(p[3].len() != 14);
        } else if i == 4 {
            assert(p[4].len() != 14);
        } else if i == 5 {
            assert(p[5].len() != 14);
        } else if i == 6 {
            assert(p[6].len() != 14);
        } else if i == 7 {
            assert(p[7].len() != 14);
        } else if i == 8 {
            assert(p[8].len() != 14);
        } else if i == 9 {
            assert(p[9].len() != 14);
        } else if i == 10 {
            assert(p[10].len() != 14);
        } else if i == 11 {
            assert(p[11].len() != 14);
        }
    }
    assert forall|i: int| 0 <= i < 15 && #[trigger] q[i] == "--yes-playlist"@ implies i == 0 || i
        == 12 || i == 14 by {
        if i == 1 {
            assert(q[1].len() != 14);
        } else if i == 2 {
            assert(q[2].len() != 14);
        } else if i == 3 {
            assert(q[3].len() != 14);
        } else if i == 4 {
            assert(q[4].len() != 14);
        } else if i == 5 {
            assert(q[5].len() != 14);
        } else if i == 6 {
            assert(q[6].len() != 14);
        } else if i == 7 {
            assert(q[7].len() != 14);
        } else if i == 8 {
            assert(q[8].len() != 14);
        } else if i == 9 {
            assert(q[9].len() != 14);
        } else if i == 10 {
            assert(q[10].len() != 14);
        } else if i == 11 {
            assert(q[11].len() != 14);
        } else if i == 13 {
            assert(q[13].len() != 14);
        }
    }
}

/// Each option of the command lines is followed by its value: the program
/// comes first, `-J` asks for metadata, `--referer` names the page, and a
/// download has `--ffmpeg-location` with the ffmpeg path, `-f` with the
/// format and `-o` with the output path, and ten retries of each kind.
pub proof fn lemma_option_values(
    yt_dlp: Seq<char>,
    ffmpeg: Seq<char>,
    url: Seq<char>,
    format_id: Seq<char>,
    out: Seq<char>,
    referer: Seq<char>,
)
    ensures
        ({
            let d = download_args(yt_dlp, ffmpeg, url, format_id, out);
            &&& d.len() == 25
            &&& d[0] == yt_dlp
            &&& d[5] == "--progress-template"@ && d[6] == PROGRESS_TEMPLATE@
            &&& d[7] == "--ffmpeg-location"@ && d[8] == ffmpeg
            &&& d[15] == "--retries"@ && d[16] == "10"@
            &&& d[17] == "--fragment-retries"@ && d[18] == "10"@
            &&& d[19] == "-f"@ && d[20] == format_id
            &&& d[21] == "-o"@ && d[22] == out
        }),
        ({
            let p = probe_args(yt_dlp, url);
            &&& p.len() == 13
            &&& p[0] == yt_dlp
            &&& p[1] == "-J"@
        }),
        ({
            let q = probe_args_with_referer(yt_dlp, url, referer);
            &&& q.len() == 15
            &&& q[0] == yt_dlp
            &&& q[1] == "-J"@
            &&& q[11] == "--referer"@ && q[12] == referer
        }),
{
}

/// All three command lines end with `--` and then the URL, so that a URL is never
/// read as an option, whatever it starts with.
pub proof fn lemma_url_after_separator(
    yt_dlp: Seq<char>,
    ffmpeg: Seq<char>,
    url: Seq<char>,
    format_id: Seq<char>,
    out: Seq<char>,
    referer: Seq<char>,
)
    ensures
        probe_args(yt_dlp, url).last() == url,
        probe_args(yt_dlp, url)[probe_args(yt_dlp, url).len() - 2] == "--"@,
        probe_args_with_referer(yt_dlp, url, referer).last() == url,
        probe_args_with_referer(yt_dlp, url, referer)[probe_args_with_referer(
            yt_dlp,
            url,
            referer,
        ).len() - 2] == "--"@,
        download_args(yt_dlp, ffmpeg, url, format_id, out).last() == url,
        download_args(yt_dlp, ffmpeg, url, format_id, out)[download_args(
            yt_dlp,
            ffmpeg,
            url,
            format_id,
            out,
        ).len() - 2] == "--"@,
{
}

/// What running `yt-dlp -J` on `url` gives: a failed exit reports its
/// trimmed standard error; otherwise standard output must be JSON, read by
/// `parse_meta`.
pub fn probe_result(url: &str, exit_ok: bool, stdout: &[u8], stderr: &str) -> (r: Result<
    VideoMeta,
    String,
>)
    ensures
        !exit_ok ==> (r matches Err(e) && e@ == "yt-dlp failed: "@ + trimmed(stderr@)),
        exit_ok ==> match json_of_bytes(stdout@) {
            Some(v) => r matches Ok(m) && m@ == meta_of_json(url@, v),
            None => r matches Err(e) && e@ == "parsing yt-dlp JSON"@,
        },
{
    if !exit_ok {
        let mut e = "yt-dlp failed: ".to_owned();
        let t = trim(stderr);
        e.append(t.as_str());
        return Err(e);
    }
    match parse_json_bytes(stdout) {
        Some(v) => parse_meta(url, &v),
        None => Err("parsing yt-dlp JSON".to_owned()),
    }
}

} // verus!
