//! The decisions behind the app's commands: how a page URL becomes a video
//! (yt-dlp first, then scraped links, then a synthesized entry), and how a
//! download's output lines and exit become job states.
use vstd::prelude::*;
use vstd::string::StringExecFns;
use crate::jobs::{copy_opt_string, DownloadJob, JobState, JobStatus};
use crate::scraper::{rank, rank_is, sorted_by_rank, ScrapedUrl};
use crate::text::{
    chars_of, contains_chars, has_prefix, has_substring, lowercased, opt_view, str_eq,
    has_non_blank, lemma_trimmed_empty, white_space, string_of_range, strip_prefix, to_lowercase, trim,
};
use crate::ytdlp::{ProgressLine, VideoFormat, VideoFormatView, VideoMeta, VideoMetaView};

verus! {

broadcast use vstd::seq_lib::group_seq_properties;

/// The file extension that a (lowercased) media URL suggests: HLS is saved
/// as mp4; the first of m3u8, mpd, mp4, webm, ts found after a dot wins.
pub open spec fn ext_of(lower: Seq<char>) -> Option<Seq<char>> {
    if has_substring(lower, ".m3u8"@) {
        Some("mp4"@)
    } else if has_substring(lower, ".mpd"@) {
        Some("mpd"@)
    } else if has_substring(lower, ".mp4"@) {
        Some("mp4"@)
    } else if has_substring(lower, ".webm"@) {
        Some("webm"@)
    } else if has_substring(lower, ".ts"@) {
        Some("ts"@)
    } else {
        None
    }
}

/// The extension that an already lowercased URL suggests (see `ext_of`).
pub fn ext_from_lowercase(lower: &str) -> (r: Option<String>)
    ensures
        opt_view(r) == ext_of(lower@),
{
    let l = chars_of(lower);
    if contains_chars(&l, &chars_of(".m3u8")) {
        Some("mp4".to_owned())
    } else if contains_chars(&l, &chars_of(".mpd")) {
        Some("mpd".to_owned())
    } else if contains_chars(&l, &chars_of(".mp4")) {
        Some("mp4".to_owned())
    } else if contains_chars(&l, &chars_of(".webm")) {
        Some("webm".to_owned())
    } else if contains_chars(&l, &chars_of(".ts")) {
        Some("ts".to_owned())
    } else {
        None
    }
}

/// The extension that `u` suggests, judged on its lowercase form.
pub fn ext_from_url(u: &str) -> (r: Option<String>)
    ensures
        opt_view(r) == ext_of(lowercased(u@)),
{
    let lower = to_lowercase(u);
    ext_from_lowercase(lower.as_str())
}

/// What `url::Url::parse` makes of this text: on success the host that
/// `Url::host_str` gives (if the URL has one), on failure the text of the
/// parse error.
pub uninterp spec fn url_parse(text: Seq<char>) -> Result<Option<Seq<char>>, Seq<char>>;

/// The host that the `url` crate finds in this text, if it parses as a URL
/// with a host.
pub open spec fn url_host(text: Seq<char>) -> Option<Seq<char>> {
    match url_parse(text) {
        Ok(h) => h,
        Err(_) => None,
    }
}

/// Calls `url::Url::parse` and, on success, `Url::host_str`; a parse error
/// is shown as text. Parsing is a function of the text alone; its outcome
/// is named `url_parse`.
#[verifier::external_body]
pub(crate) fn parse_url(u: &str) -> (r: Result<Option<String>, String>)
    ensures
        match r {
            Ok(h) => url_parse(u@) == Ok::<Option<Seq<char>>, Seq<char>>(opt_view(h)),
            Err(e) => url_parse(u@) == Err::<Option<Seq<char>>, Seq<char>>(e@),
        },
{
    match url::Url::parse(u) {
        Ok(p) => Ok(p.host_str().map(|h| h.to_string())),
        Err(e) => Err(e.to_string()),
    }
}

/// The title for a host found in a page URL: the host, or "video" when
/// there is none.
pub fn title_from_host(host: Option<String>) -> (r: String)
    ensures
        r@ == match host {
            Some(h) => h@,
            None => "video"@,
        },
{
    match host {
        Some(h) => h,
        None => "video".to_owned(),
    }
}

/// The title given to a video found only as a raw link: the page's host,
/// or "video".
pub fn extract_title_from_url(u: &str) -> (r: String)
    ensures
        r@ == match url_host(u@) {
            Some(h) => h,
            None => "video"@,
        },
{
    match parse_url(u) {
        Ok(h) => title_from_host(h),
        Err(_) => title_from_host(None),
    }
}

/// A probe result that can be offered: it lists at least one format.
pub open spec fn usable(r: Result<VideoMeta, String>) -> bool {
    r matches Ok(m) && m.formats@.len() > 0
}

/// After probing the page itself: a result listing formats is the answer
/// (`Ok`); otherwise the scraper is to run, remembering the probe's error
/// if it failed (`Err`).
pub fn direct_outcome(direct: Result<VideoMeta, String>) -> (r: Result<VideoMeta, Option<String>>)
    ensures
        usable(direct) ==> r == Ok::<VideoMeta, Option<String>>(direct->Ok_0),
        !usable(direct) ==> r == Err::<VideoMeta, Option<String>>(
            match direct {
                Ok(_) => None,
                Err(e) => Some(e),
            },
        ),
{
    match direct {
        Ok(m) => {
            if m.formats.len() > 0 {
                Ok(m)
            } else {
                Err(None)
            }
        },
        Err(e) => Err(Some(e)),
    }
}

/// The error when the scraper found no link at all.
pub open spec fn no_candidates_message() -> Seq<char> {
    "이 페이지에서 영상 후보를 찾지 못했습니다."@
}

/// The error when no link led to a video.
pub open spec fn no_video_message() -> Seq<char> {
    "이 페이지에서 다운로드 가능한 영상을 찾지 못했습니다."@
}

/// The note on a format synthesized from a raw link.
pub open spec fn direct_link_note() -> Seq<char> {
    "스캐너가 찾은 직접 링크"@
}

/// Probing the links the scraper found, one after another.
#[derive(Debug)]
pub struct AutoProbe {
    /// The page the user gave.
    pub page_url: String,
    /// The links, best first.
    pub candidates: Vec<ScrapedUrl>,
    /// How many links were probed so far.
    pub next: usize,
    /// The error of the latest failed probe.
    pub last_err: Option<String>,
}

/// A direct media link (a manifest or file the page loads), as opposed to a
/// player iframe.
pub open spec fn is_media(c: ScrapedUrl) -> bool {
    c.kind@ == "media"@
}

/// `i` is the position of the first media link of `c`.
pub open spec fn first_media_at(c: Seq<ScrapedUrl>, i: int) -> bool {
    0 <= i < c.len() && is_media(c[i]) && forall|j: int| 0 <= j < i ==> !is_media(#[trigger] c[j])
}

/// The position of the link to fall back on: the first direct media link;
/// `None` when there is no such link.
pub open spec fn fallback_index(c: Seq<ScrapedUrl>) -> Option<int> {
    if exists|i: int| first_media_at(c, i) {
        Some(choose|i: int| first_media_at(c, i))
    } else {
        None
    }
}

/// The entry synthesized from a raw media link found on the page `page_url`:
/// titled after the page's host, with one format "best" whose extension the
/// link suggests (mp4 when it suggests none).
pub open spec fn synthesized_meta(page_url: Seq<char>, link: Seq<char>) -> VideoMetaView {
    VideoMetaView {
        url: link,
        title: match url_host(page_url) {
            Some(h) => h,
            None => "video"@,
        },
        thumbnail: None,
        duration_bits: None,
        uploader: None,
        formats: seq![
            VideoFormatView {
                id: "best"@,
                ext: match ext_of(lowercased(link)) {
                    Some(e) => e,
                    None => "mp4"@,
                },
                resolution: None,
                fps_bits: None,
                vcodec: None,
                acodec: None,
                filesize: None,
                tbr_bits: None,
                note: Some(direct_link_note()),
            },
        ],
        is_playlist: false,
        playlist_count: None,
    }
}

/// A sequence with a media link at `j` has a first media link.
proof fn lemma_first_media_exists(c: Seq<ScrapedUrl>, j: int)
    requires
        0 <= j < c.len(),
        is_media(c[j]),
    ensures
        exists|k: int| first_media_at(c, k),
    decreases j,
{
    if exists|m: int| 0 <= m < j && is_media(#[trigger] c[m]) {
        let m = choose|m: int| 0 <= m < j && is_media(#[trigger] c[m]);
        lemma_first_media_exists(c, m);
    } else {
        assert(first_media_at(c, j));
    }
}

/// The link to fall back on is the first direct media link of the ranked
/// candidates, and there is none exactly when no candidate is a media link.
pub proof fn lemma_fallback_is_first_media(c: Seq<ScrapedUrl>)
    ensures
        fallback_index(c) matches Some(i) ==> {
            &&& 0 <= i < c.len()
            &&& c[i].kind@ == "media"@
            &&& forall|j: int| 0 <= j < i ==> (#[trigger] c[j]).kind@ != "media"@
        },
        fallback_index(c) is None <==> forall|j: int| 0 <= j < c.len() ==> (#[trigger] c[j]).kind@ != "media"@,
{
    if exists|i: int| first_media_at(c, i) {
        let i = choose|i: int| first_media_at(c, i);
        assert(forall|j: int| 0 <= j < i ==> !is_media(#[trigger] c[j]));
    } else {
        assert forall|j: int| 0 <= j < c.len() implies (#[trigger] c[j]).kind@ != "media"@ by {
            if c[j].kind@ == "media"@ {
                lemma_first_media_exists(c, j);
            }
        }
    }
}

/// Falling back on a raw link always offers something to download: the
/// synthesized entry has exactly one format, so it counts as usable.
pub proof fn lemma_fallback_is_usable(page_url: Seq<char>, link: Seq<char>)
    ensures
        synthesized_meta(page_url, link).formats.len() == 1,
        synthesized_meta(page_url, link).url == link,
        synthesized_meta(page_url, link).title == match url_parse(page_url) {
            Ok(Some(h)) => h,
            _ => "video"@,
        },
        synthesized_meta(page_url, link).formats[0].id == "best"@,
        synthesized_meta(page_url, link).formats[0].ext == match ext_of(lowercased(link)) {
            Some(e) => e,
            None => "mp4"@,
        },
        !synthesized_meta(page_url, link).is_playlist,
{
}

/// The extension a lowercased link suggests: an HLS manifest is saved as
/// mp4, and otherwise the first of `.mpd`, `.mp4`, `.webm`, `.ts` found
/// names it; a link with none of these suggests nothing. Only these four
/// extensions are ever suggested.
pub proof fn lemma_ext_of(lower: Seq<char>)
    ensures
        has_substring(lower, ".m3u8"@) ==> ext_of(lower) == Some("mp4"@),
        !has_substring(lower, ".m3u8"@) && has_substring(lower, ".mpd"@) ==> ext_of(lower) == Some(
            "mpd"@,
        ),
        !has_substring(lower, ".m3u8"@) && !has_substring(lower, ".mpd"@) && has_substring(
            lower,
            ".mp4"@,
        ) ==> ext_of(lower) == Some("mp4"@),
        !has_substring(lower, ".m3u8"@) && !has_substring(lower, ".mpd"@) && !has_substring(
            lower,
            ".mp4"@,
        ) && has_substring(lower, ".webm"@) ==> ext_of(lower) == Some("webm"@),
        ext_of(lower) is None <==> !has_substring(lower, ".m3u8"@) && !has_substring(lower, ".mpd"@)
            && !has_substring(lower, ".mp4"@) && !has_substring(lower, ".webm"@) && !has_substring(
            lower,
            ".ts"@,
        ),
        ext_of(lower) matches Some(e) ==> e == "mp4"@ || e == "mpd"@ || e == "webm"@ || e == "ts"@,
{
}

/// A probe result is offered exactly when it succeeded with at least one
/// format.
pub proof fn lemma_usable(r: Result<VideoMeta, String>)
    ensures
        usable(r) <==> (r is Ok && r->Ok_0.formats@.len() > 0),
{
}

/// Builds the entry for a raw media link (see `synthesized_meta`).
pub fn synthesize_meta(page_url: &str, link: &str) -> (r: VideoMeta)
    ensures
        r@ == synthesized_meta(page_url@, link@),
{
    let ext = match ext_from_url(link) {
        Some(e) => e,
        None => "mp4".to_owned(),
    };
    let fmt = VideoFormat {
        id: "best".to_owned(),
        ext,
        resolution: None,
        fps_bits: None,
        vcodec: None,
        acodec: None,
        filesize: None,
        tbr_bits: None,
        note: Some("스캐너가 찾은 직접 링크".to_owned()),
    };
    let mut formats: Vec<VideoFormat> = Vec::new();
    formats.push(fmt);
    let r = VideoMeta {
        url: link.to_owned(),
        title: extract_title_from_url(page_url),
        thumbnail: None,
        duration_bits: None,
        uploader: None,
        formats,
        is_playlist: false,
        playlist_count: None,
    };
    assert(r@.formats =~= synthesized_meta(page_url@, link@).formats);
    r
}

impl AutoProbe {
    /// Starts on the links the scraper found, ranked best first. Without
    /// links there is nothing to try: the error is the page probe's own, or
    /// the message that no candidate was found.
    pub fn begin(page_url: &str, direct_err: Option<String>, scraped: Vec<ScrapedUrl>) -> (r:
        Result<AutoProbe, String>)
        ensures
            scraped@.len() == 0 ==> (r matches Err(e) && e@ == match direct_err {
                Some(d) => d@,
                None => no_candidates_message(),
            }),
            scraped@.len() > 0 ==> (r matches Ok(p) && {
                &&& p.page_url@ == page_url@
                &&& p.next == 0
                &&& p.last_err is None
                &&& p.candidates@.to_multiset() == scraped@.to_multiset()
                &&& sorted_by_rank(p.candidates@)
                &&& forall|k: int| #[trigger] p.candidates@.filter(rank_is(k)) == scraped@.filter(rank_is(k))
            }),
    {
        let mut candidates = scraped;
        rank(&mut candidates);
        if candidates.len() == 0 {
            proof {
                vstd::seq_lib::to_multiset_len(candidates@);
                vstd::seq_lib::to_multiset_len(scraped@);
            }
            return Err(match direct_err {
                Some(d) => d,
                None => "이 페이지에서 영상 후보를 찾지 못했습니다.".to_owned(),
            });
        }
        proof {
            vstd::seq_lib::to_multiset_len(candidates@);
            vstd::seq_lib::to_multiset_len(scraped@);
        }
        Ok(AutoProbe { page_url: page_url.to_owned(), candidates, next: 0, last_err: None })
    }

    /// The link to probe now, if any is left.
    pub fn current(&self) -> (r: Option<String>)
        ensures
            self.next < self.candidates@.len() ==> (r matches Some(u) && u@
                == self.candidates@[self.next as int].url@),
            self.next >= self.candidates@.len() ==> r is None,
    {
        if self.next < self.candidates.len() {
            Some(self.candidates[self.next].url.clone())
        } else {
            None
        }
    }

    /// Takes the result of probing the current link (with the page as its
    /// referer, see `probe_argv_with_referer`): one listing formats is the
    /// answer; a failure is remembered; either way, otherwise, the next
    /// link is up.
    pub fn record(&mut self, result: Result<VideoMeta, String>) -> (r: Option<VideoMeta>)
        ensures
            usable(result) ==> r == Some(result->Ok_0) && *final(self) == *old(self),
            !usable(result) ==> r is None && final(self).next == if old(self).next
                < usize::MAX {
                old(self).next + 1
            } else {
                old(self).next as int
            } && final(self).page_url == old(self).page_url && final(self).candidates
                == old(self).candidates && final(self).last_err == match result {
                Err(e) => Some(e),
                Ok(_) => old(self).last_err,
            },
    {
        match result {
            Ok(m) => {
                if m.formats.len() > 0 {
                    return Some(m);
                }
            },
            Err(e) => {
                self.last_err = Some(e);
            },
        }
        if self.next < usize::MAX {
            self.next = self.next + 1;
        }
        None
    }

    /// No link led to a video: fall back on the first direct media link, as
    /// a synthesized entry. Without a direct media link (only player
    /// iframes) the outcome is the last probe error, or the message that no
    /// downloadable video was found.
    pub fn give_up(self) -> (r: Result<VideoMeta, String>)
        ensures
            match fallback_index(self.candidates@) {
                Some(i) => r matches Ok(m) && m@ == synthesized_meta(
                    self.page_url@,
                    self.candidates@[i].url@,
                ),
                None => r matches Err(e) && e@ == match self.last_err {
                    Some(x) => x@,
                    None => no_video_message(),
                },
            },
            r matches Ok(m) ==> exists|i: int|
                0 <= i < self.candidates@.len() && (#[trigger] self.candidates@[i]).kind@ == "media"@
                    && (forall|j: int| 0 <= j < i ==> self.candidates@[j].kind@ != "media"@)
                    && m.url@ == self.candidates@[i].url@,
            r is Err <==> forall|j: int|
                0 <= j < self.candidates@.len() ==> (#[trigger] self.candidates@[j]).kind@ != "media"@,
    {
        let n = self.candidates.len();
        let mut i: usize = 0;
        while i < n
            invariant
                n == self.candidates@.len(),
                i <= n,
                forall|j: int| 0 <= j < i ==> !is_media(#[trigger] self.candidates@[j]),
            decreases n - i,
        {
            if str_eq(self.candidates[i].kind.as_str(), "media") {
                assert(first_media_at(self.candidates@, i as int));
                assert forall|k: int| first_media_at(self.candidates@, k) implies k == i as int by {
                    if k < i {
                    } else if k > i {
                        assert(!is_media(self.candidates@[i as int]));
                    }
                }
                let m = synthesize_meta(self.page_url.as_str(), self.candidates[i].url.as_str());
                assert(self.candidates@[i as int].kind@ == "media"@);
                assert(forall|j: int| 0 <= j < i ==> !is_media(#[trigger] self.candidates@[j]));
                assert(m.url@ == m@.url);
                return Ok(m);
            }
            i += 1;
        }
        assert(!exists|k: int| first_media_at(self.candidates@, k));
        Err(match self.last_err {
            Some(x) => x,
            None => "이 페이지에서 다운로드 가능한 영상을 찾지 못했습니다.".to_owned(),
        })
    }
}

/// The prefix of yt-dlp's progress lines.
pub open spec fn progress_prefix() -> Seq<char> {
    "download:"@
}

/// The prefix of the line naming the file that formats are merged into.
pub open spec fn merger_prefix() -> Seq<char> {
    "[Merger] Merging formats into \""@
}

/// The prefix of the line naming the file being downloaded.
pub open spec fn destination_prefix() -> Seq<char> {
    "[download] Destination: "@
}

/// The JSON text of a progress line: what follows `download:`.
pub fn progress_payload(line: &str) -> (r: Option<String>)
    ensures
        r is Some <==> has_prefix(line@, progress_prefix()),
        r matches Some(p) ==> p@ == line@.subrange(progress_prefix().len() as int, line@.len() as int),
{
    strip_prefix(&chars_of(line), "download:")
}

/// `i` is the position of the last `"` in `s`.
pub open spec fn last_quote_at(s: Seq<char>, i: int) -> bool {
    0 <= i < s.len() && s[i] == '"' && forall|j: int| i < j < s.len() ==> s[j] != '"'
}

/// A file name worth remembering from a progress line: not empty and not
/// yt-dlp's "NA".
pub open spec fn real_name(n: Seq<char>) -> bool {
    n.len() > 0 && n != "NA"@
}

/// The file name that a non-progress output line announces, if any: the
/// merge target up to the last quote, or the download destination.
pub open spec fn announced_file(line: Seq<char>) -> Option<Seq<char>> {
    if has_prefix(line, merger_prefix()) {
        let rest = line.subrange(merger_prefix().len() as int, line.len() as int);
        if exists|i: int| last_quote_at(rest, i) {
            Some(rest.subrange(0, choose|i: int| last_quote_at(rest, i)))
        } else {
            None
        }
    } else if has_prefix(line, destination_prefix()) {
        Some(line.subrange(destination_prefix().len() as int, line.len() as int))
    } else {
        None
    }
}

/// File names from output lines: a name is real unless it is empty or
/// yt-dlp's "NA"; a destination line announces the text after its prefix;
/// a line with neither prefix announces nothing.
pub proof fn lemma_announced_names(line: Seq<char>, n: Seq<char>)
    ensures
        real_name(n) <==> n.len() > 0 && n != "NA"@,
        has_prefix(line, "[download] Destination: "@) ==> announced_file(line) == Some(
            line.subrange(24, line.len() as int),
        ),
        !has_prefix(line, "[Merger] Merging formats into \""@) && !has_prefix(
            line,
            "[download] Destination: "@,
        ) ==> announced_file(line) is None,
{
    reveal_strlit("[download] Destination: ");
    reveal_strlit("[Merger] Merging formats into \"");
    if has_prefix(line, "[download] Destination: "@) {
        let d = "[download] Destination: "@;
        let m = "[Merger] Merging formats into \""@;
        assert(line.subrange(0, d.len() as int)[1] == d[1]);
        assert(line[1] == 'd');
        if has_prefix(line, m) {
            assert(line.subrange(0, m.len() as int)[1] == m[1]);
        }
    }
}

/// The file name a non-progress output line announces (see `announced_file`).
pub fn announced_file_name(line: &str) -> (r: Option<String>)
    ensures
        opt_view(r) == announced_file(line@),
{
    let l = chars_of(line);
    match strip_prefix(&l, "[Merger] Merging formats into \"") {
        Some(rest) => {
            let rv = chars_of(rest.as_str());
            assert(rv@ == line@.subrange(merger_prefix().len() as int, line@.len() as int));
            let mut i: usize = rv.len();
            while i > 0
                invariant
                    i <= rv@.len(),
                    has_prefix(line@, merger_prefix()),
                    rv@ == line@.subrange(merger_prefix().len() as int, line@.len() as int),
                    forall|j: int| i <= j < rv@.len() ==> rv@[j] != '"',
                decreases i,
            {
                if rv[i - 1] == '"' {
                    let ghost k = (i - 1) as int;
                    assert(last_quote_at(rv@, k));
                    assert forall|m: int| last_quote_at(rv@, m) implies m == k by {
                        if m < k {
                            assert(rv@[k] == '"');
                        }
                    }
                    let r = string_of_range(&rv, 0, i - 1);
                    assert(announced_file(line@) == Some(rv@.subrange(0, k)));
                    return Some(r);
                }
                i -= 1;
            }
            assert forall|m: int| !last_quote_at(rv@, m) by {}
            None
        },
        None => strip_prefix(&l, "[download] Destination: "),
    }
}

/// The running state that a progress update reports: missing figures count
/// as 0.
pub open spec fn running_status(p: ProgressLine) -> JobStatus {
    JobStatus::Running {
        downloaded: match p.downloaded {
            Some(d) => d,
            None => 0,
        },
        total: match p.total {
            Some(t) => t,
            None => 0,
        },
        speed_bits: match p.speed_bits {
            Some(b) => b,
            None => 0,
        },
        eta_bits: match p.eta_bits {
            Some(b) => b,
            None => 0,
        },
    }
}

/// The line is a progress line whose payload was read.
pub open spec fn is_progress_update(line: Seq<char>, progress: Option<ProgressLine>) -> bool {
    has_prefix(line, progress_prefix()) && progress is Some
}

/// The state that a line of standard output reports, if any.
pub open spec fn stdout_status(line: Seq<char>, progress: Option<ProgressLine>) -> Option<JobStatus> {
    if is_progress_update(line, progress) {
        Some(running_status(progress->Some_0))
    } else {
        None
    }
}

/// A progress line reports a running state carrying each figure of the
/// line, field by field; a figure the line lacks is reported as 0. A line
/// without the progress prefix, or whose payload did not read, reports
/// nothing.
pub proof fn lemma_progress_figures(line: Seq<char>, progress: Option<ProgressLine>)
    ensures
        !has_prefix(line, "download:"@) || progress is None ==> stdout_status(line, progress) is None,
        has_prefix(line, "download:"@) && progress is Some ==> {
            let p = progress->Some_0;
            stdout_status(line, progress) matches Some(
                JobStatus::Running { downloaded, total, speed_bits, eta_bits },
            ) && (p.downloaded matches Some(d) ==> downloaded == d) && (p.downloaded is None
                ==> downloaded == 0) && (p.total matches Some(t) ==> total == t) && (p.total is None
                ==> total == 0) && (p.speed_bits matches Some(b) ==> speed_bits == b) && (
            p.speed_bits is None ==> speed_bits == 0) && (p.eta_bits matches Some(b) ==> eta_bits
                == b) && (p.eta_bits is None ==> eta_bits == 0)
        },
{
}

/// How the last file name seen goes from `before` to `after` on a line of
/// standard output: a progress update names the file when it carries a
/// real name; another line names it when it announces one.
pub open spec fn stdout_filename(
    line: Seq<char>,
    progress: Option<ProgressLine>,
    before: Option<String>,
    after: Option<String>,
) -> bool {
    if is_progress_update(line, progress) {
        after == match progress->Some_0.filename {
            Some(n) => if real_name(n@) {
                Some(n)
            } else {
                before
            },
            None => before,
        }
    } else {
        match announced_file(line) {
            Some(n) => after matches Some(f) && f@ == n,
            None => after == before,
        }
    }
}

/// The last file name after a progress line: the line's file name when it
/// is real, else unchanged. After a blank error line the last error line is
/// unchanged; after any other it is that line.
pub proof fn lemma_names_kept(
    line: Seq<char>,
    p: ProgressLine,
    before: Option<String>,
    after: Option<String>,
    err: String,
    err_before: Option<String>,
    err_after: Option<String>,
)
    ensures
        has_prefix(line, "download:"@) && stdout_filename(line, Some(p), before, after) ==> {
            &&& (p.filename matches Some(n) ==> (n@.len() > 0 && n@ != "NA"@ ==> after == Some(n)))
            &&& (p.filename matches Some(n) ==> (n@.len() == 0 || n@ == "NA"@ ==> after == before))
            &&& (p.filename is None ==> after == before)
        },
        stderr_kept(err, err_before, err_after) ==> {
            &&& ((exists|i: int| 0 <= i < err@.len() && !white_space(err@[i])) ==> err_after == Some(
                err,
            ))
            &&& ((forall|i: int| 0 <= i < err@.len() ==> white_space(err@[i])) ==> err_after
                == err_before)
        },
{
}

/// Interprets one line of a download's standard output. `progress` is the
/// line's JSON payload (see `progress_payload`) read as a `ProgressLine`,
/// or `None` when the line has none or it does not read as one. A progress
/// line gives the running state (missing figures as 0) and may name the
/// file; other lines can only name the file. `last_filename` keeps the
/// latest real name seen.
pub fn handle_stdout(line: &str, progress: Option<ProgressLine>, last_filename: &mut Option<String>) -> (r: Option<JobStatus>)
    ensures
        r == stdout_status(line@, progress),
        stdout_filename(line@, progress, *old(last_filename), *final(last_filename)),
{
    let is_progress = match progress_payload(line) {
        Some(_) => true,
        None => false,
    };
    if is_progress {
        match progress {
            Some(p) => {
                match p.filename {
                    Some(name) => {
                        let keep = !name.as_str().is_empty() && !str_eq(name.as_str(), "NA");
                        if keep {
                            *last_filename = Some(name);
                        }
                    },
                    None => {},
                }
                return Some(
                    JobStatus::Running {
                        downloaded: match p.downloaded {
                            Some(d) => d,
                            None => 0,
                        },
                        total: match p.total {
                            Some(t) => t,
                            None => 0,
                        },
                        speed_bits: match p.speed_bits {
                            Some(b) => b,
                            None => 0,
                        },
                        eta_bits: match p.eta_bits {
                            Some(b) => b,
                            None => 0,
                        },
                    },
                );
            },
            None => {},
        }
    }
    match announced_file_name(line) {
        Some(n) => {
            *last_filename = Some(n);
        },
        None => {},
    }
    None
}

/// How the latest error line goes from `before` to `after` on a line of
/// standard error: a line that is not blank replaces it.
pub open spec fn stderr_kept(line: String, before: Option<String>, after: Option<String>) -> bool {
    if has_non_blank(line@) {
        after == Some(line)
    } else {
        after == before
    }
}

/// Keeps a line of standard error as the latest message unless it is
/// blank (empty or only white space).
pub fn note_stderr(line: String, last_stderr: &mut Option<String>)
    ensures
        stderr_kept(line, *old(last_stderr), *final(last_stderr)),
{
    let t = trim(line.as_str());
    proof {
        lemma_trimmed_empty(line@);
    }
    if !t.as_str().is_empty() {
        *last_stderr = Some(line);
    }
}

/// `s` is the final state of a download that exited (successfully or not,
/// its status shown as `exit_text`) after the given last file name and last
/// error line: see `finish_status`.
pub open spec fn is_exit_status(
    s: JobStatus,
    exit_ok: bool,
    exit_text: Seq<char>,
    last_filename: Option<String>,
    last_stderr: Option<String>,
    output_dir: Seq<char>,
) -> bool {
    if exit_ok {
        s matches JobStatus::Done { path } && path@ == match last_filename {
            Some(f) => f@,
            None => output_dir,
        }
    } else {
        s matches JobStatus::Error { message } && message@ == match last_stderr {
            Some(m) => m@,
            None => "yt-dlp exited with status "@ + exit_text,
        }
    }
}

/// A clean exit is done at the last file name seen, or at the output
/// folder; a failed exit is an error with the last non-blank error line, or
/// the exit status.
pub proof fn lemma_exit_status(
    s: JobStatus,
    exit_ok: bool,
    exit_text: Seq<char>,
    last_filename: Option<String>,
    last_stderr: Option<String>,
    output_dir: Seq<char>,
)
    requires
        is_exit_status(s, exit_ok, exit_text, last_filename, last_stderr, output_dir),
    ensures
        exit_ok ==> s is Done,
        !exit_ok ==> s is Error,
        exit_ok && last_filename is Some ==> s->path@ == last_filename->Some_0@,
        exit_ok && last_filename is None ==> s->path@ == output_dir,
        !exit_ok && last_stderr is Some ==> s->message@ == last_stderr->Some_0@,
        !exit_ok && last_stderr is None ==> s->message@ == "yt-dlp exited with status "@ + exit_text,
{
}

/// The final state of a download whose output ended: a failed exit reports
/// the last non-blank error line, or the exit status (`exit_text`, as
/// shown); a clean exit is done at the last file name seen, or at the
/// output folder.
pub fn finish_status(
    exit_ok: bool,
    exit_text: &str,
    last_filename: Option<String>,
    last_stderr: Option<String>,
    output_dir: &str,
) -> (r: JobStatus)
    ensures
        is_exit_status(r, exit_ok, exit_text@, last_filename, last_stderr, output_dir@),
{
    if !exit_ok {
        let message = match last_stderr {
            Some(m) => m,
            None => {
                let mut m = "yt-dlp exited with status ".to_owned();
                m.append(exit_text);
                m
            },
        };
        return JobStatus::Error { message };
    }
    JobStatus::Done {
        path: match last_filename {
            Some(f) => f,
            None => output_dir.to_owned(),
        },
    }
}

/// The state reported when a job is accepted, at `now`: queued, not ended.
pub fn queued_state(job: DownloadJob, now: u64) -> (r: JobState)
    ensures
        r == (JobState { job, status: JobStatus::Queued, started_at: now, ended_at: None }),
{
    JobState { job, status: JobStatus::Queued, started_at: now, ended_at: None }
}

/// Something that happened to a running download.
#[derive(Debug)]
pub enum RunEvent {
    /// The user asked the job to stop.
    Cancelled,
    /// A line of standard output, with its progress payload read as a
    /// `ProgressLine` where it reads as one (see `handle_stdout`).
    Stdout { line: String, progress: Option<ProgressLine> },
    /// A line of standard error.
    Stderr { line: String },
    /// Standard output ended and the process exited; `status_text` shows
    /// its exit status.
    Exited { success: bool, status_text: String },
    /// The process could not be started, read or waited for.
    Failed { message: String },
}

/// The event ends the download.
pub open spec fn ends_run(e: RunEvent) -> bool {
    e is Cancelled || e is Exited || e is Failed
}

/// What one `DownloadRun::step` does: `before` takes `event` at `now`,
/// becomes `after` and reports `r`. Output lines report running states
/// (see `handle_stdout`) and keep the last file name and error line;
/// cancelling, the exit or a failure reports the one final state, ended at
/// `now`: cancelled, the exit's outcome (see `finish_status`), or the
/// failure's message. A finished run reports nothing and stays as it is.
pub open spec fn step_ok(
    before: DownloadRun,
    event: RunEvent,
    now: u64,
    after: DownloadRun,
    r: Option<JobState>,
) -> bool {
    &&& after.job == before.job
    &&& after.started_at == before.started_at
    &&& after.finished == (before.finished || ends_run(event))
    &&& (r matches Some(st) ==> (st.status.active() <==> !after.finished))
    &&& (before.finished ==> r is None && after == before)
    &&& (!before.finished ==> match event {
        RunEvent::Cancelled => {
            &&& r == Some(before.state_with(JobStatus::Cancelled, Some(now)))
            &&& after.last_filename == before.last_filename
            &&& after.last_stderr == before.last_stderr
        },
        RunEvent::Failed { message } => {
            &&& r == Some(before.state_with(JobStatus::Error { message }, Some(now)))
            &&& after.last_filename == before.last_filename
            &&& after.last_stderr == before.last_stderr
        },
        RunEvent::Exited { success, status_text } => {
            &&& r matches Some(st) && st == before.state_with(st.status, Some(now))
                && is_exit_status(
                st.status,
                success,
                status_text@,
                before.last_filename,
                before.last_stderr,
                before.job.output_dir@,
            )
            &&& after.last_filename == before.last_filename
            &&& after.last_stderr == before.last_stderr
        },
        RunEvent::Stdout { line, progress } => {
            &&& r == match stdout_status(line@, progress) {
                Some(s) => Some(before.state_with(s, None)),
                None => None,
            }
            &&& stdout_filename(line@, progress, before.last_filename, after.last_filename)
            &&& after.last_stderr == before.last_stderr
        },
        RunEvent::Stderr { line } => {
            &&& r is None
            &&& stderr_kept(line, before.last_stderr, after.last_stderr)
            &&& after.last_filename == before.last_filename
        },
    })
}

/// A download in progress: the job, when it started, what its output told
/// so far, and whether its final state was reported.
#[derive(Debug)]
pub struct DownloadRun {
    pub job: DownloadJob,
    pub started_at: u64,
    pub last_filename: Option<String>,
    pub last_stderr: Option<String>,
    pub finished: bool,
}

impl DownloadRun {
    /// A download of `job` that started at `started_at`, with nothing seen.
    pub fn start(job: DownloadJob, started_at: u64) -> (r: Self)
        ensures
            r == (DownloadRun { job, started_at, last_filename: None, last_stderr: None, finished: false }),
    {
        DownloadRun { job, started_at, last_filename: None, last_stderr: None, finished: false }
    }

    /// The state of the job with `status`, ended at `ended_at`.
    pub open spec fn state_with(self, status: JobStatus, ended_at: Option<u64>) -> JobState {
        JobState { job: self.job, status, started_at: self.started_at, ended_at }
    }

    /// Takes one event at time `now` and gives the job state to report, if
    /// any. Output lines report running states (see `handle_stdout`) and
    /// keep the last file name and error line; cancelling, the exit or a
    /// failure reports the one final state, ended at `now`: cancelled, the
    /// exit's outcome (see `finish_status`), or the failure's message. After
    /// that nothing more is reported. So a job reports running states any
    /// number of times, then exactly one final state.
    pub fn step(&mut self, event: RunEvent, now: u64) -> (r: Option<JobState>)
        ensures
            step_ok(*old(self), event, now, *final(self), r),
    {
        if self.finished {
            return None;
        }
        match event {
            RunEvent::Cancelled => {
                self.finished = true;
                Some(self.state_now(JobStatus::Cancelled, Some(now)))
            },
            RunEvent::Failed { message } => {
                self.finished = true;
                Some(self.state_now(JobStatus::Error { message }, Some(now)))
            },
            RunEvent::Exited { success, status_text } => {
                let status = finish_status(
                    success,
                    status_text.as_str(),
                    copy_opt_string(&self.last_filename),
                    copy_opt_string(&self.last_stderr),
                    self.job.output_dir.as_str(),
                );
                self.finished = true;
                Some(self.state_now(status, Some(now)))
            },
            RunEvent::Stdout { line, progress } => {
                match handle_stdout(line.as_str(), progress, &mut self.last_filename) {
                    Some(status) => Some(self.state_now(status, None)),
                    None => None,
                }
            },
            RunEvent::Stderr { line } => {
                note_stderr(line, &mut self.last_stderr);
                None
            },
        }
    }

    /// The state of the job with `status`, ended at `ended_at`.
    fn state_now(&self, status: JobStatus, ended_at: Option<u64>) -> (r: JobState)
        ensures
            r == self.state_with(status, ended_at),
    {
        JobState { job: self.job.duplicate(), status, started_at: self.started_at, ended_at }
    }
}

/// The report is a final state: one that is no longer waiting or running.
pub open spec fn is_final_report(r: Option<JobState>) -> bool {
    r matches Some(st) && !st.status.active()
}

/// `events[i]` is the first event that ends the run.
pub open spec fn first_end(events: Seq<RunEvent>, i: int) -> bool {
    ends_run(events[i]) && forall|k: int| 0 <= k < i ==> !ends_run(#[trigger] events[k])
}

/// The successive runs `runs` are a run taking `events` at times `nows`
/// with `step`, reporting `reports`.
pub open spec fn run_trace(
    runs: Seq<DownloadRun>,
    events: Seq<RunEvent>,
    nows: Seq<u64>,
    reports: Seq<Option<JobState>>,
) -> bool {
    &&& runs.len() == events.len() + 1
    &&& nows.len() == events.len()
    &&& reports.len() == events.len()
    &&& forall|i: int|
        0 <= i < events.len() ==> #[trigger] step_ok(runs[i], events[i], nows[i], runs[i + 1], reports[i])
}

/// One step's report belongs to the run's job and start, is ended exactly
/// when it is final, and is final exactly when an open run ends.
proof fn lemma_step_report(b: DownloadRun, e: RunEvent, now: u64, a: DownloadRun, r: Option<JobState>)
    requires
        step_ok(b, e, now, a, r),
    ensures
        r matches Some(st) ==> st.job == b.job && st.started_at == b.started_at && (st.ended_at is None
            <==> st.status.active()),
        is_final_report(r) <==> (!b.finished && ends_run(e)),
        r matches Some(st) ==> (st.status.active() ==> st.status is Running),
{
}

/// Along a run, the job, its start and whether it finished evolve as the
/// events say: finished exactly once some event ended it.
proof fn lemma_run_prefix(
    runs: Seq<DownloadRun>,
    events: Seq<RunEvent>,
    nows: Seq<u64>,
    reports: Seq<Option<JobState>>,
    n: int,
)
    requires
        run_trace(runs, events, nows, reports),
        !runs[0].finished,
        0 <= n <= events.len(),
    ensures
        runs[n].job == runs[0].job,
        runs[n].started_at == runs[0].started_at,
        runs[n].finished <==> exists|k: int| 0 <= k < n && ends_run(#[trigger] events[k]),
    decreases n,
{
    if n > 0 {
        let m = n - 1;
        lemma_run_prefix(runs, events, nows, reports, m);
        assert(step_ok(runs[m], events[m], nows[m], runs[m + 1], reports[m]));
        assert(m + 1 == n);
        if runs[n].finished && !runs[n - 1].finished {
            assert(ends_run(events[n - 1]));
        }
        if exists|k: int| 0 <= k < n && ends_run(#[trigger] events[k]) {
            let k = choose|k: int| 0 <= k < n && ends_run(#[trigger] events[k]);
            if k < n - 1 {
                assert(runs[n - 1].finished);
            }
        }
    }
}

/// Over a whole download: every state reported belongs to the job and its
/// start, is running or final, and is ended exactly when it is final; the
/// run reports running states until the first event that ends it (a cancel, the exit or a
/// failure), reports exactly one final state there, and nothing after.
pub proof fn lemma_run_reports(
    runs: Seq<DownloadRun>,
    events: Seq<RunEvent>,
    nows: Seq<u64>,
    reports: Seq<Option<JobState>>,
)
    requires
        run_trace(runs, events, nows, reports),
        !runs[0].finished,
    ensures
        forall|i: int|
            0 <= i < reports.len() && (#[trigger] reports[i]) is Some ==> {
                let st = reports[i]->Some_0;
                &&& st.job == runs[0].job
                &&& st.started_at == runs[0].started_at
                &&& (st.ended_at is None <==> st.status.active())
                &&& (st.status.active() ==> st.status is Running)
            },
        forall|i: int| 0 <= i < reports.len() ==> (is_final_report(#[trigger] reports[i]) <==> first_end(events, i)),
        forall|i: int, j: int|
            0 <= i < j < reports.len() && is_final_report(#[trigger] reports[i]) ==> (#[trigger] reports[j]) is None,
        runs.last().finished <==> exists|k: int| 0 <= k < events.len() && ends_run(#[trigger] events[k]),
{
    assert forall|i: int| 0 <= i < reports.len() implies {
        &&& ((#[trigger] reports[i]) is Some ==> {
            let st = reports[i]->Some_0;
            &&& st.job == runs[0].job
            &&& st.started_at == runs[0].started_at
            &&& (st.ended_at is None <==> st.status.active())
            &&& (st.status.active() ==> st.status is Running)
        })
        &&& (is_final_report(reports[i]) <==> first_end(events, i))
    } by {
        lemma_run_prefix(runs, events, nows, reports, i);
        assert(step_ok(runs[i], events[i], nows[i], runs[i + 1], reports[i]));
        lemma_step_report(runs[i], events[i], nows[i], runs[i + 1], reports[i]);
        if runs[i].finished {
            let k = choose|k: int| 0 <= k < i && ends_run(#[trigger] events[k]);
            assert(!first_end(events, i));
        }
    }
    assert forall|i: int, j: int|
        0 <= i < j < reports.len() && is_final_report(#[trigger] reports[i]) implies (#[trigger] reports[j]) is None by {
        lemma_run_prefix(runs, events, nows, reports, i);
        assert(step_ok(runs[i], events[i], nows[i], runs[i + 1], reports[i]));
        lemma_step_report(runs[i], events[i], nows[i], runs[i + 1], reports[i]);
        lemma_run_prefix(runs, events, nows, reports, j);
        assert(ends_run(events[i]));
        assert(runs[j].finished);
        assert(step_ok(runs[j], events[j], nows[j], runs[j + 1], reports[j]));
    }
    lemma_run_prefix(runs, events, nows, reports, events.len() as int);
}

} // verus!
