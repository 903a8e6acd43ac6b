//! Verified core of a small video archive: tag handling, URL classification,
//! video naming, ordering and the text formats the archive stores.

pub mod text;
pub mod urlcode;
pub mod mime;
pub mod naming;
pub mod video;
pub mod tags;
pub mod json;
pub mod records;
pub mod submission;
pub mod tagger;
pub mod video_fetcher;
pub mod video_store;
pub mod status;
pub mod page_renderer;
