//! Planning and bookkeeping for downloading segmented media streams and
//! multiplexing them into a single output file.

pub mod model;
pub mod text;
pub mod order;
pub mod segments;
pub mod reorder;
pub mod align;
pub mod download;
pub mod chapters;
pub mod subtitles;
pub mod fonts;
pub mod space;
pub mod progress;
pub mod plan;
pub mod merge;
pub mod format;
