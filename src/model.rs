//! The media the library plans for: locales, subtitles, skip events and the
//! per-variant download formats.

use vstd::prelude::*;
use crate::segments::StreamData;

verus! {

/// A locale: its tag (`ja-JP`) and its human-readable name (`Japanese`).
pub struct Locale {
    pub tag: String,
    pub name: String,
}

/// A subtitle track offered for a variant.
pub struct Subtitle {
    pub locale: Locale,
    pub url: String,
    pub format: String,
}

/// A labelled interval of the video, in milliseconds.
#[derive(Clone, Copy, Debug, PartialEq, Eq, Structural)]
pub struct SkipEvent {
    pub start_ms: u64,
    pub end_ms: u64,
}

/// The skip events of an episode; each may be missing.
#[derive(Clone, Copy, Debug, PartialEq, Eq, Structural)]
pub struct SkipEvents {
    pub recap: Option<SkipEvent>,
    pub intro: Option<SkipEvent>,
    pub credits: Option<SkipEvent>,
    pub preview: Option<SkipEvent>,
}

pub struct DownloadFormatMetadata {
    pub skip_events: Option<SkipEvents>,
}

/// One language variant of a title: its video, its audio tracks, its
/// subtitles (each with whether it is closed captions) and metadata.
pub struct DownloadFormat {
    pub video: (StreamData, Locale),
    pub audios: Vec<(StreamData, Locale)>,
    pub subtitles: Vec<(Subtitle, bool)>,
    pub metadata: DownloadFormatMetadata,
}

} // verus!
