//! Verified core of a Steam Workshop downloader: reading item ids out of
//! workshop URLs, building and maintaining the URL file, deciding the course
//! of a download run, and naming downloaded mod folders.
pub mod cli;
pub mod download;
pub mod html;
pub mod mods;
pub mod text;
pub mod urls;
