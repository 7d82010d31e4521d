//! Verified core of a desktop video downloader: ranking and de-duplicating
//! scraped media links, reading yt-dlp metadata, building yt-dlp command
//! lines, interpreting its output, and keeping the table of download jobs.

pub mod text;
pub mod json;
pub mod scraper;
pub mod ytdlp;
pub mod jobs;
pub mod policy;
pub mod commands;
pub mod sidecar;
