//! The downloader's configuration and the decisions it takes between
//! downloads: in which order variants and tracks come, how variants are
//! aligned and merged, and which offsets each track gets.

use vstd::prelude::*;
use vstd::string::*;
use crate::align::{alignment_decided, audios_of, check_alignment, lemma_aligned_root_exists, merge_into_root, subtitles_of, Alignment};
use crate::model::{DownloadFormat, DownloadFormatMetadata, Locale, SkipEvents, Subtitle};
use crate::order::{is_stable_rearrangement, sort_by_keys};
use crate::plan::{AudioInput, MuxConfig, SubtitleInput};
use crate::segments::{len_from_segments, saturate, millis_sum, StreamData};

verus! {

/// Relies on `num_cpus::get`: the number of CPUs available, which its
/// documentation promises is at least 1.
#[verifier::external_body]
fn available_cpus() -> (r: usize)
    ensures
        r >= 1,
{
    num_cpus::get()
}

/// Arguments handed to the multiplexer before the inputs and before the
/// output, and whether the user wrote them.
pub struct FFmpegPreset {
    pub input_args: Vec<String>,
    pub output_args: Vec<String>,
    pub custom: bool,
}

impl FFmpegPreset {
    /// Copies every stream as it is.
    pub fn stream_copy() -> (r: FFmpegPreset)
        ensures
            r.input_args@.len() == 0,
            r.output_args@.map_values(|s: String| s@) == seq!["-c:v"@, "copy"@, "-c:a"@, "copy"@],
            !r.custom,
    {
        let mut out: Vec<String> = Vec::new();
        out.push(String::from_str("-c:v"));
        out.push(String::from_str("copy"));
        out.push(String::from_str("-c:a"));
        out.push(String::from_str("copy"));
        assert(out@.map_values(|s: String| s@) =~= seq!["-c:v"@, "copy"@, "-c:a"@, "copy"@]);
        FFmpegPreset { input_args: Vec::new(), output_args: out, custom: false }
    }
}

/// Collects the downloader's settings.
pub struct DownloadBuilder {
    pub ffmpeg_preset: FFmpegPreset,
    pub default_subtitle: Option<Locale>,
    pub output_format: Option<String>,
    pub audio_sort: Option<Vec<Locale>>,
    pub subtitle_sort: Option<Vec<Locale>>,
    pub force_hardsub: bool,
    pub download_fonts: bool,
    pub no_closed_caption: bool,
    pub merge_sync_tolerance: Option<u32>,
    pub merge_sync_precision: Option<u32>,
    pub threads: usize,
    pub ffmpeg_threads: Option<usize>,
    /// Output language tag per locale tag, for audio streams.
    pub audio_locale_output_map: Vec<(String, String)>,
    /// Output language tag per locale tag, for subtitle streams.
    pub subtitle_locale_output_map: Vec<(String, String)>,
}

/// Downloads the variants of one title and multiplexes them.
pub struct Downloader {
    pub ffmpeg_preset: FFmpegPreset,
    pub default_subtitle: Option<Locale>,
    pub output_format: Option<String>,
    pub audio_sort: Option<Vec<Locale>>,
    pub subtitle_sort: Option<Vec<Locale>>,
    pub force_hardsub: bool,
    pub download_fonts: bool,
    pub no_closed_caption: bool,
    pub merge_sync_tolerance: Option<u32>,
    pub merge_sync_precision: Option<u32>,
    pub download_threads: usize,
    pub ffmpeg_threads: Option<usize>,
    pub formats: Vec<DownloadFormat>,
    pub audio_locale_output_map: Vec<(String, String)>,
    pub subtitle_locale_output_map: Vec<(String, String)>,
}

impl DownloadBuilder {
    /// Stream copy, no sorting or subtitles chosen, no alignment, one
    /// download worker per available CPU.
    pub fn new() -> (r: DownloadBuilder)
        ensures
            r.threads >= 1,
            r.default_subtitle is None,
            r.output_format is None,
            r.audio_sort is None,
            r.subtitle_sort is None,
            !r.force_hardsub,
            !r.download_fonts,
            !r.no_closed_caption,
            r.merge_sync_tolerance is None,
            r.merge_sync_precision is None,
            r.ffmpeg_threads is None,
            r.audio_locale_output_map@.len() == 0,
            r.subtitle_locale_output_map@.len() == 0,
            !r.ffmpeg_preset.custom,
    {
        DownloadBuilder {
            ffmpeg_preset: FFmpegPreset::stream_copy(),
            default_subtitle: None,
            output_format: None,
            audio_sort: None,
            subtitle_sort: None,
            force_hardsub: false,
            download_fonts: false,
            no_closed_caption: false,
            merge_sync_tolerance: None,
            merge_sync_precision: None,
            threads: available_cpus(),
            ffmpeg_threads: None,
            audio_locale_output_map: Vec::new(),
            subtitle_locale_output_map: Vec::new(),
        }
    }

    /// Sets `ffmpeg_preset`, keeping every other setting.
    pub fn ffmpeg_preset(self, value: FFmpegPreset) -> (r: DownloadBuilder)
        ensures
            r == (DownloadBuilder { ffmpeg_preset: value, ..self }),
    {
        DownloadBuilder { ffmpeg_preset: value, ..self }
    }

    /// Sets `default_subtitle`, keeping every other setting.
    pub fn default_subtitle(self, value: Option<Locale>) -> (r: DownloadBuilder)
        ensures
            r == (DownloadBuilder { default_subtitle: value, ..self }),
    {
        DownloadBuilder { default_subtitle: value, ..self }
    }

    /// Sets `output_format`, keeping every other setting.
    pub fn output_format(self, value: Option<String>) -> (r: DownloadBuilder)
        ensures
            r == (DownloadBuilder { output_format: value, ..self }),
    {
        DownloadBuilder { output_format: value, ..self }
    }

    /// Sets `audio_sort`, keeping every other setting.
    pub fn audio_sort(self, value: Option<Vec<Locale>>) -> (r: DownloadBuilder)
        ensures
            r == (DownloadBuilder { audio_sort: value, ..self }),
    {
        DownloadBuilder { audio_sort: value, ..self }
    }

    /// Sets `subtitle_sort`, keeping every other setting.
    pub fn subtitle_sort(self, value: Option<Vec<Locale>>) -> (r: DownloadBuilder)
        ensures
            r == (DownloadBuilder { subtitle_sort: value, ..self }),
    {
        DownloadBuilder { subtitle_sort: value, ..self }
    }

    /// Sets `force_hardsub`, keeping every other setting.
    pub fn force_hardsub(self, value: bool) -> (r: DownloadBuilder)
        ensures
            r == (DownloadBuilder { force_hardsub: value, ..self }),
    {
        DownloadBuilder { force_hardsub: value, ..self }
    }

    /// Sets `download_fonts`, keeping every other setting.
    pub fn download_fonts(self, value: bool) -> (r: DownloadBuilder)
        ensures
            r == (DownloadBuilder { download_fonts: value, ..self }),
    {
        DownloadBuilder { download_fonts: value, ..self }
    }

    /// Sets `no_closed_caption`, keeping every other setting.
    pub fn no_closed_caption(self, value: bool) -> (r: DownloadBuilder)
        ensures
            r == (DownloadBuilder { no_closed_caption: value, ..self }),
    {
        DownloadBuilder { no_closed_caption: value, ..self }
    }

    /// Sets `merge_sync_tolerance`, keeping every other setting.
    pub fn merge_sync_tolerance(self, value: Option<u32>) -> (r: DownloadBuilder)
        ensures
            r == (DownloadBuilder { merge_sync_tolerance: value, ..self }),
    {
        DownloadBuilder { merge_sync_tolerance: value, ..self }
    }

    /// Sets `merge_sync_precision`, keeping every other setting.
    pub fn merge_sync_precision(self, value: Option<u32>) -> (r: DownloadBuilder)
        ensures
            r == (DownloadBuilder { merge_sync_precision: value, ..self }),
    {
        DownloadBuilder { merge_sync_precision: value, ..self }
    }

    /// Sets `threads`, keeping every other setting.
    pub fn threads(self, value: usize) -> (r: DownloadBuilder)
        ensures
            r == (DownloadBuilder { threads: value, ..self }),
    {
        DownloadBuilder { threads: value, ..self }
    }

    /// Sets `ffmpeg_threads`, keeping every other setting.
    pub fn ffmpeg_threads(self, value: Option<usize>) -> (r: DownloadBuilder)
        ensures
            r == (DownloadBuilder { ffmpeg_threads: value, ..self }),
    {
        DownloadBuilder { ffmpeg_threads: value, ..self }
    }

    /// Sets `audio_locale_output_map`, keeping every other setting.
    pub fn audio_locale_output_map(self, value: Vec<(String, String)>) -> (r: DownloadBuilder)
        ensures
            r == (DownloadBuilder { audio_locale_output_map: value, ..self }),
    {
        DownloadBuilder { audio_locale_output_map: value, ..self }
    }

    /// Sets `subtitle_locale_output_map`, keeping every other setting.
    pub fn subtitle_locale_output_map(self, value: Vec<(String, String)>) -> (r: DownloadBuilder)
        ensures
            r == (DownloadBuilder { subtitle_locale_output_map: value, ..self }),
    {
        DownloadBuilder { subtitle_locale_output_map: value, ..self }
    }

    /// A downloader with these settings and no formats yet.
    pub fn build(self) -> (r: Downloader)
        ensures
            r.formats@.len() == 0,
            r.ffmpeg_preset == self.ffmpeg_preset,
            r.default_subtitle == self.default_subtitle,
            r.output_format == self.output_format,
            r.audio_sort == self.audio_sort,
            r.subtitle_sort == self.subtitle_sort,
            r.force_hardsub == self.force_hardsub,
            r.download_fonts == self.download_fonts,
            r.no_closed_caption == self.no_closed_caption,
            r.merge_sync_tolerance == self.merge_sync_tolerance,
            r.merge_sync_precision == self.merge_sync_precision,
            r.download_threads == self.threads,
            r.ffmpeg_threads == self.ffmpeg_threads,
            r.audio_locale_output_map == self.audio_locale_output_map,
            r.subtitle_locale_output_map == self.subtitle_locale_output_map,
    {
        Downloader {
            ffmpeg_preset: self.ffmpeg_preset,
            default_subtitle: self.default_subtitle,
            output_format: self.output_format,
            audio_sort: self.audio_sort,
            subtitle_sort: self.subtitle_sort,
            force_hardsub: self.force_hardsub,
            download_fonts: self.download_fonts,
            no_closed_caption: self.no_closed_caption,
            merge_sync_tolerance: self.merge_sync_tolerance,
            merge_sync_precision: self.merge_sync_precision,
            download_threads: self.threads,
            ffmpeg_threads: self.ffmpeg_threads,
            formats: Vec::new(),
            audio_locale_output_map: self.audio_locale_output_map,
            subtitle_locale_output_map: self.subtitle_locale_output_map,
        }
    }
}

/// Where `l` stands in the preference list `prefs`; locales not listed come
/// after all listed ones.
pub open spec fn rank_of(prefs: Seq<Locale>, l: Locale) -> nat
    decreases prefs.len(),
{
    if prefs.len() == 0 {
        0
    } else if prefs[0].tag@ == l.tag@ {
        0
    } else {
        rank_of(prefs.drop_first(), l) + 1
    }
}

proof fn lemma_rank_bound(prefs: Seq<Locale>, l: Locale)
    ensures
        rank_of(prefs, l) <= prefs.len(),
    decreases prefs.len(),
{
    if prefs.len() > 0 {
        lemma_rank_bound(prefs.drop_first(), l);
    }
}

/// Where `l` stands in the preference list `prefs` (its length when absent).
pub fn locale_rank(prefs: &Vec<Locale>, l: &Locale) -> (r: u64)
    ensures
        r == rank_of(prefs@, *l),
{
    proof { lemma_rank_bound(prefs@, *l); }
    let mut i: usize = 0;
    assert(prefs@.skip(0) =~= prefs@);
    while i < prefs.len()
        invariant
            i <= prefs.len(),
            rank_of(prefs@, *l) == i + rank_of(prefs@.skip(i as int), *l),
        decreases prefs.len() - i,
    {
        assert(prefs@.skip(i as int).drop_first() =~= prefs@.skip(i + 1));
        if prefs[i].tag == l.tag {
            return i as u64;
        }
        i = i + 1;
    }
    i as u64
}

/// Sort keys of audio tracks: the rank of each track's locale.
pub open spec fn audio_keys(prefs: Seq<Locale>, audios: Seq<(StreamData, Locale)>) -> Seq<u128> {
    Seq::new(audios.len(), |i: int| rank_of(prefs, audios[i].1) as u128)
}

/// Sort keys of subtitles: the rank of the locale, closed captions first
/// among subtitles of one locale.
pub open spec fn subtitle_keys(prefs: Seq<Locale>, subtitles: Seq<(Subtitle, bool)>) -> Seq<u128> {
    Seq::new(subtitles.len(), |i: int| (2 * rank_of(prefs, subtitles[i].0.locale) + if subtitles[i].1 { 0int } else { 1int }) as u128)
}

/// Sort keys of variants: the rank of the video's locale.
pub open spec fn variant_keys(prefs: Seq<Locale>, formats: Seq<DownloadFormat>) -> Seq<u128> {
    Seq::new(formats.len(), |i: int| rank_of(prefs, formats[i].video.1) as u128)
}

/// A variant with its tracks sorted by the preference lists that are set.
pub open spec fn tracks_sorted(before: DownloadFormat, after: DownloadFormat, audio_sort: Option<Vec<Locale>>, subtitle_sort: Option<Vec<Locale>>) -> bool {
    &&& after.video == before.video
    &&& after.metadata == before.metadata
    &&& match audio_sort {
        Some(p) => is_stable_rearrangement(before.audios@, after.audios@, audio_keys(p@, before.audios@)),
        None => after.audios@ == before.audios@,
    }
    &&& match subtitle_sort {
        Some(p) => is_stable_rearrangement(before.subtitles@, after.subtitles@, subtitle_keys(p@, before.subtitles@)),
        None => after.subtitles@ == before.subtitles@,
    }
}

fn audio_sort_keys(prefs: &Vec<Locale>, audios: &Vec<(StreamData, Locale)>) -> (r: Vec<u128>)
    ensures
        r@ == audio_keys(prefs@, audios@),
{
    let mut r: Vec<u128> = Vec::new();
    let mut i: usize = 0;
    while i < audios.len()
        invariant
            i <= audios.len(),
            r@ == audio_keys(prefs@, audios@).take(i as int),
        decreases audios.len() - i,
    {
        r.push(locale_rank(prefs, &audios[i].1) as u128);
        i = i + 1;
        assert(r@ =~= audio_keys(prefs@, audios@).take(i as int));
    }
    assert(r@ =~= audio_keys(prefs@, audios@));
    r
}

fn subtitle_sort_keys(prefs: &Vec<Locale>, subtitles: &Vec<(Subtitle, bool)>) -> (r: Vec<u128>)
    ensures
        r@ == subtitle_keys(prefs@, subtitles@),
{
    proof {
        assert forall|i: int| 0 <= i < subtitles.len() implies rank_of(prefs@, #[trigger] subtitles@[i].0.locale) <= prefs.len() by {
            lemma_rank_bound(prefs@, subtitles@[i].0.locale);
        }
    }
    let mut r: Vec<u128> = Vec::new();
    let mut i: usize = 0;
    while i < subtitles.len()
        invariant
            i <= subtitles.len(),
            r@ == subtitle_keys(prefs@, subtitles@).take(i as int),
            forall|i: int| 0 <= i < subtitles.len() ==> rank_of(prefs@, #[trigger] subtitles@[i].0.locale) <= prefs.len(),
        decreases subtitles.len() - i,
    {
        let rank = locale_rank(prefs, &subtitles[i].0.locale);
        let cc: u128 = if subtitles[i].1 { 0 } else { 1 };
        r.push(2 * (rank as u128) + cc);
        i = i + 1;
        assert(r@ =~= subtitle_keys(prefs@, subtitles@).take(i as int));
    }
    assert(r@ =~= subtitle_keys(prefs@, subtitles@));
    r
}

fn variant_sort_keys(prefs: &Vec<Locale>, formats: &Vec<DownloadFormat>) -> (r: Vec<u128>)
    ensures
        r@ == variant_keys(prefs@, formats@),
{
    let mut r: Vec<u128> = Vec::new();
    let mut i: usize = 0;
    while i < formats.len()
        invariant
            i <= formats.len(),
            r@ == variant_keys(prefs@, formats@).take(i as int),
        decreases formats.len() - i,
    {
        r.push(locale_rank(prefs, &formats[i].video.1) as u128);
        i = i + 1;
        assert(r@ =~= variant_keys(prefs@, formats@).take(i as int));
    }
    assert(r@ =~= variant_keys(prefs@, formats@));
    r
}

/// One variant with its tracks sorted.
pub fn sort_tracks(f: DownloadFormat, audio_sort: &Option<Vec<Locale>>, subtitle_sort: &Option<Vec<Locale>>) -> (r: DownloadFormat)
    ensures
        tracks_sorted(f, r, *audio_sort, *subtitle_sort),
{
    let DownloadFormat { video, audios, subtitles, metadata } = f;
    let audios = match audio_sort {
        Some(p) => {
            let keys = audio_sort_keys(p, &audios);
            sort_by_keys(audios, &keys)
        },
        None => audios,
    };
    let subtitles = match subtitle_sort {
        Some(p) => {
            let keys = subtitle_sort_keys(p, &subtitles);
            sort_by_keys(subtitles, &keys)
        },
        None => subtitles,
    };
    DownloadFormat { video, audios, subtitles, metadata }
}

/// Each variant of `after` is that of `before` with its tracks sorted.
pub open spec fn all_tracks_sorted(before: Seq<DownloadFormat>, after: Seq<DownloadFormat>, audio_sort: Option<Vec<Locale>>, subtitle_sort: Option<Vec<Locale>>) -> bool {
    &&& after.len() == before.len()
    &&& forall|i: int| 0 <= i < after.len() ==> tracks_sorted(before[i], #[trigger] after[i], audio_sort, subtitle_sort)
}

/// The per-variant offsets that survive alignment.
pub struct TrackOffsets {
    pub alignment: Alignment,
    /// Offset of the video kept, when the variants were merged.
    pub video: Option<i64>,
    /// Offset of each variant's audio tracks, by variant index.
    pub variants: Vec<Option<i64>>,
    /// Offset of each subtitle of the merged variant, by position.
    pub subtitles: Vec<Option<i64>>,
}

/// A downloaded audio track of variant `format_id`.
pub struct RawAudio {
    pub format_id: usize,
    pub path: String,
    pub locale: Locale,
    pub sample_rate: u32,
    pub video_idx: usize,
}

impl Downloader {
    /// Every setting but the formats is the same in both.
    pub open spec fn same_settings(&self, other: &Downloader) -> bool {
        &&& self.ffmpeg_preset == other.ffmpeg_preset
        &&& self.default_subtitle == other.default_subtitle
        &&& self.output_format == other.output_format
        &&& self.audio_sort == other.audio_sort
        &&& self.subtitle_sort == other.subtitle_sort
        &&& self.force_hardsub == other.force_hardsub
        &&& self.download_fonts == other.download_fonts
        &&& self.no_closed_caption == other.no_closed_caption
        &&& self.merge_sync_tolerance == other.merge_sync_tolerance
        &&& self.merge_sync_precision == other.merge_sync_precision
        &&& self.download_threads == other.download_threads
        &&& self.ffmpeg_threads == other.ffmpeg_threads
        &&& self.audio_locale_output_map == other.audio_locale_output_map
        &&& self.subtitle_locale_output_map == other.subtitle_locale_output_map
    }

    pub fn add_format(&mut self, format: DownloadFormat)
        ensures
            final(self).same_settings(old(self)),
            final(self).formats@ == old(self).formats@.push(format),
    {
        self.formats.push(format);
    }

    /// Sorts each variant's tracks, then the variants, by the preference
    /// lists that are set (stably; unlisted locales last; closed captions
    /// before other subtitles of their locale).
    pub fn sort_formats(&mut self)
        ensures
            final(self).same_settings(old(self)),
            exists|mid: Seq<DownloadFormat>| {
                &&& #[trigger] all_tracks_sorted(old(self).formats@, mid, old(self).audio_sort, old(self).subtitle_sort)
                &&& match old(self).audio_sort {
                    Some(p) => is_stable_rearrangement(mid, final(self).formats@, variant_keys(p@, mid)),
                    None => final(self).formats@ == mid,
                }
            },
    {
        let mut formats: Vec<DownloadFormat> = Vec::new();
        std::mem::swap(&mut formats, &mut self.formats);
        let ghost all = formats@;
        let n = formats.len();
        let mut mid: Vec<DownloadFormat> = Vec::new();
        while formats.len() > 0
            invariant
                n == all.len(),
                mid.len() + formats.len() == n,
                formats@ == all.subrange(mid.len() as int, n as int),
                forall|i: int| 0 <= i < mid.len() ==> tracks_sorted(all[i], #[trigger] mid@[i], self.audio_sort, self.subtitle_sort),
                self.same_settings(old(self)),
            decreases formats.len(),
        {
            let f = formats.remove(0);
            mid.push(sort_tracks(f, &self.audio_sort, &self.subtitle_sort));
            assert(formats@ =~= all.subrange(mid.len() as int, n as int));
        }
        let ghost mid_s = mid@;
        let sorted = match &self.audio_sort {
            Some(p) => {
                let keys = variant_sort_keys(p, &mid);
                sort_by_keys(mid, &keys)
            },
            None => mid,
        };
        self.formats = sorted;
        assert(all_tracks_sorted(all, mid_s, self.audio_sort, self.subtitle_sort));
    }

    /// Whether the variants are to be aligned: there are several and a
    /// sync tolerance is set.
    pub fn wants_alignment(&self) -> (r: bool)
        ensures
            r == (self.formats@.len() > 1 && self.merge_sync_tolerance is Some),
    {
        self.formats.len() > 1 && self.merge_sync_tolerance.is_some()
    }
}

/// The playing time of each variant's video, in milliseconds.
pub open spec fn variant_totals(formats: Seq<DownloadFormat>) -> Seq<u64> {
    Seq::new(formats.len(), |i: int| saturate(millis_sum(formats[i].video.0.segments@) as int))
}

/// The offset of each subtitle of the merged variant: that of the variant it came from.
pub open spec fn subtitle_offsets_of(formats: Seq<DownloadFormat>, o: Seq<Option<i64>>) -> Seq<Option<i64>>
    decreases formats.len(),
{
    if formats.len() == 0 {
        Seq::empty()
    } else {
        subtitle_offsets_of(formats.drop_last(), o) + Seq::new(formats.last().subtitles@.len(), |j: int| o[formats.len() - 1])
    }
}

/// What alignment did to the downloader and which offsets the tracks get.
pub open spec fn alignment_applied(before: Seq<DownloadFormat>, offsets: Option<Vec<Option<i64>>>, after: Seq<DownloadFormat>, t: TrackOffsets) -> bool {
    &&& alignment_decided(variant_totals(before), offsets, t.alignment)
    &&& match t.alignment {
        Alignment::Aligned { root } => {
            &&& offsets matches Some(o) && {
                &&& t.video == o@[root as int]
                &&& t.variants@ == o@
                &&& t.subtitles@ == subtitle_offsets_of(before, o@)
            }
            &&& after.len() == 1
            &&& after[0].video == before[root as int].video
            &&& after[0].metadata == before[root as int].metadata
            &&& after[0].audios@ == audios_of(before)
            &&& after[0].subtitles@ == subtitles_of(before)
        },
        _ => {
            &&& t.video is None
            &&& t.variants@ == Seq::new(before.len(), |i: int| None::<i64>)
            &&& t.subtitles@.len() == 0
            &&& after.len() == before.len()
            &&& forall|i: int| 0 <= i < after.len() ==> {
                &&& #[trigger] after[i].video == before[i].video
                &&& after[i].audios == before[i].audios
                &&& after[i].subtitles == before[i].subtitles
                &&& after[i].metadata.skip_events is None
            }
        },
    }
}

fn offsets_for_subtitles(formats: &Vec<DownloadFormat>, o: &Vec<Option<i64>>) -> (r: Vec<Option<i64>>)
    requires
        o.len() == formats.len(),
    ensures
        r@ == subtitle_offsets_of(formats@, o@),
{
    let mut r: Vec<Option<i64>> = Vec::new();
    let mut i: usize = 0;
    while i < formats.len()
        invariant
            i <= formats.len() == o.len(),
            r@ == subtitle_offsets_of(formats@.take(i as int), o@),
        decreases formats.len() - i,
    {
        assert(formats@.take(i + 1).drop_last() =~= formats@.take(i as int));
        let ghost before = r@;
        let mut j: usize = 0;
        while j < formats[i].subtitles.len()
            invariant
                i < formats.len() == o.len(),
                j <= formats@[i as int].subtitles@.len(),
                r@ == before + Seq::new(j as nat, |k: int| o@[i as int]),
            decreases formats@[i as int].subtitles@.len() - j,
        {
            r.push(o[i]);
            j = j + 1;
            assert(r@ =~= before + Seq::new(j as nat, |k: int| o@[i as int]));
        }
        i = i + 1;
        assert(r@ =~= subtitle_offsets_of(formats@.take(i as int), o@));
    }
    assert(formats@.take(i as int) =~= formats@);
    r
}

fn video_totals(formats: &Vec<DownloadFormat>) -> (r: Vec<u64>)
    ensures
        r@ == variant_totals(formats@),
{
    let mut r: Vec<u64> = Vec::new();
    let mut i: usize = 0;
    while i < formats.len()
        invariant
            i <= formats.len(),
            r@ == variant_totals(formats@).take(i as int),
        decreases formats.len() - i,
    {
        r.push(len_from_segments(&formats[i].video.0.segments));
        i = i + 1;
        assert(r@ =~= variant_totals(formats@).take(i as int));
    }
    assert(r@ =~= variant_totals(formats@));
    r
}

/// The variants and track offsets once `alignment`, decided on `offsets`, is applied.
fn apply_alignment(formats: Vec<DownloadFormat>, offsets: Option<Vec<Option<i64>>>, alignment: Alignment) -> (r: (Vec<DownloadFormat>, TrackOffsets))
    requires
        formats@.len() >= 1,
        offsets matches Some(o) ==> o@.len() == formats@.len(),
        alignment_decided(variant_totals(formats@), offsets, alignment),
    ensures
        alignment_applied(formats@, offsets, r.0@, r.1),
{
    let ghost all = formats@;
    match alignment {
        Alignment::Aligned { root } => {
            proof { lemma_aligned_root_exists(variant_totals(all), offsets, alignment); }
            let o = offsets.unwrap();
            let subtitles = offsets_for_subtitles(&formats, &o);
            let merged = merge_into_root(formats, root);
            let mut kept: Vec<DownloadFormat> = Vec::new();
            kept.push(merged);
            let video = o[root];
            (kept, TrackOffsets { alignment: Alignment::Aligned { root }, video, variants: o, subtitles })
        },
        _ => {
            let mut formats = formats;
            let n = formats.len();
            let mut kept: Vec<DownloadFormat> = Vec::new();
            let mut none: Vec<Option<i64>> = Vec::new();
            while formats.len() > 0
                invariant
                    n == all.len(),
                    kept.len() + formats.len() == n,
                    none.len() == kept.len(),
                    formats@ == all.subrange(kept.len() as int, n as int),
                    forall|j: int| 0 <= j < none.len() ==> #[trigger] none@[j] is None,
                    forall|i: int| 0 <= i < kept.len() ==> {
                        &&& #[trigger] kept@[i].video == all[i].video
                        &&& kept@[i].audios == all[i].audios
                        &&& kept@[i].subtitles == all[i].subtitles
                        &&& kept@[i].metadata.skip_events is None
                    },
                decreases formats.len(),
            {
                let f = formats.remove(0);
                let DownloadFormat { video, audios, subtitles, metadata } = f;
                kept.push(DownloadFormat { video, audios, subtitles, metadata: DownloadFormatMetadata { skip_events: None } });
                none.push(None);
                assert(formats@ =~= all.subrange(kept.len() as int, n as int));
            }
            assert(none@ =~= Seq::new(n as nat, |i: int| None::<i64>));
            (kept, TrackOffsets { alignment, video: None, variants: none, subtitles: Vec::new() })
        },
    }
}

impl Downloader {
    /// Applies the offsets found for the variants (`None` when none were
    /// found). When they hold, all variants merge into the root, which keeps
    /// its video and skip events, and the offsets are handed to the tracks;
    /// otherwise the variants stay apart, no track gets an offset and no
    /// variant keeps its skip events.
    pub fn align_variants(&mut self, offsets: Option<Vec<Option<i64>>>) -> (r: TrackOffsets)
        requires
            old(self).formats@.len() >= 1,
            offsets matches Some(o) ==> o@.len() == old(self).formats@.len(),
        ensures
            final(self).same_settings(old(self)),
            alignment_applied(old(self).formats@, offsets, final(self).formats@, r),
    {
        let totals = video_totals(&self.formats);
        let alignment = check_alignment(&totals, &offsets);
        let mut formats: Vec<DownloadFormat> = Vec::new();
        std::mem::swap(&mut formats, &mut self.formats);
        let (kept, t) = apply_alignment(formats, offsets, alignment);
        self.formats = kept;
        t
    }

    /// The skip events chapters are made of: those of the last variant that has them.
    pub fn chapter_source(&self) -> (r: Option<SkipEvents>)
        ensures
            r == last_skip_events(self.formats@),
    {
        let mut r: Option<SkipEvents> = None;
        let mut i: usize = 0;
        while i < self.formats.len()
            invariant
                i <= self.formats.len(),
                r == last_skip_events(self.formats@.take(i as int)),
            decreases self.formats.len() - i,
        {
            assert(self.formats@.take(i + 1).drop_last() =~= self.formats@.take(i as int));
            if self.formats[i].metadata.skip_events.is_some() {
                r = self.formats[i].metadata.skip_events;
            }
            i = i + 1;
        }
        assert(self.formats@.take(i as int) =~= self.formats@);
        r
    }
}

/// The skip events of the last variant that has them.
pub open spec fn last_skip_events(formats: Seq<DownloadFormat>) -> Option<SkipEvents>
    decreases formats.len(),
{
    if formats.len() == 0 {
        None
    } else if formats.last().metadata.skip_events is Some {
        formats.last().metadata.skip_events
    } else {
        last_skip_events(formats.drop_last())
    }
}

/// The input for a downloaded audio track: it gets its variant's offset,
/// and belongs to the root's video once variants are merged.
pub open spec fn audio_input_of(raw: RawAudio, t: TrackOffsets) -> AudioInput {
    AudioInput {
        path: raw.path,
        locale: raw.locale,
        start_ms: t.variants@[raw.format_id as int],
        video_idx: match t.alignment {
            Alignment::Aligned { root } => root,
            _ => raw.video_idx,
        },
    }
}

/// The inputs for the downloaded audio tracks, in the same order.
pub fn audio_inputs(raw: Vec<RawAudio>, t: &TrackOffsets) -> (r: Vec<AudioInput>)
    requires
        forall|i: int| 0 <= i < raw.len() ==> #[trigger] raw@[i].format_id < t.variants@.len(),
    ensures
        r.len() == raw.len(),
        forall|i: int| 0 <= i < r.len() ==> #[trigger] r@[i] == audio_input_of(raw@[i], *t),
{
    let ghost all = raw@;
    let n = raw.len();
    let mut raw = raw;
    let mut r: Vec<AudioInput> = Vec::new();
    while raw.len() > 0
        invariant
            n == all.len(),
            r.len() + raw.len() == n,
            raw@ == all.subrange(r.len() as int, n as int),
            forall|i: int| 0 <= i < all.len() ==> #[trigger] all[i].format_id < t.variants@.len(),
            forall|i: int| 0 <= i < r.len() ==> #[trigger] r@[i] == audio_input_of(all[i], *t),
        decreases raw.len(),
    {
        let a = raw.remove(0);
        let video_idx = match t.alignment {
            Alignment::Aligned { root } => root,
            _ => a.video_idx,
        };
        let start_ms = t.variants[a.format_id];
        r.push(AudioInput { path: a.path, locale: a.locale, start_ms, video_idx });
        assert(raw@ =~= all.subrange(r.len() as int, n as int));
    }
    r
}

/// The offset of subtitle `j` of variant `variant` (counted after alignment).
pub open spec fn subtitle_offset_of(t: TrackOffsets, j: int) -> Option<i64> {
    match t.alignment {
        Alignment::Aligned { .. } => if 0 <= j < t.subtitles@.len() { t.subtitles@[j] } else { None },
        _ => None,
    }
}

/// The input for a downloaded subtitle: subtitle `j` of variant `variant`
/// (counted after alignment), stored at `path`.
pub fn subtitle_input(path: String, subtitle: &Subtitle, cc: bool, variant: usize, j: usize, t: &TrackOffsets) -> (r: SubtitleInput)
    ensures
        r.path == path,
        r.locale.tag@ == subtitle.locale.tag@,
        r.locale.name@ == subtitle.locale.name@,
        r.cc == cc,
        r.video_idx == variant,
        r.start_ms == subtitle_offset_of(*t, j as int),
{
    let start_ms = match t.alignment {
        Alignment::Aligned { .. } => if j < t.subtitles.len() { t.subtitles[j] } else { None },
        _ => None,
    };
    SubtitleInput {
        path,
        locale: Locale { tag: subtitle.locale.tag.clone(), name: subtitle.locale.name.clone() },
        cc,
        start_ms,
        video_idx: variant,
    }
}

/// Offsets that did not hold leave every audio input without an offset, so
/// that no `-ss` stands before any audio input of the plan.
pub proof fn lemma_rejected_offsets_leave_audio_unshifted(raw: RawAudio, t: TrackOffsets, n: nat)
    requires
        !(t.alignment is Aligned),
        t.variants@ == Seq::new(n, |i: int| None::<i64>),
        raw.format_id < n,
    ensures
        audio_input_of(raw, t).start_ms is None,
        crate::plan::input_args(raw.path@, audio_input_of(raw, t).start_ms) == seq!["-i"@, raw.path@],
{
    assert(crate::plan::seek_args(None) + seq!["-i"@, raw.path@] =~= seq!["-i"@, raw.path@]);
}

impl Downloader {
    /// Whether fonts are embedded: they are wanted, subtitles are not burnt
    /// in, and the output is Matroska.
    pub fn embeds_fonts(&self, extension: &str) -> (r: bool)
        ensures
            r == (self.download_fonts && !self.force_hardsub && extension@ == "mkv"@),
    {
        self.download_fonts && !self.force_hardsub && String::from_str(extension) == String::from_str("mkv")
    }

    /// The multiplexer settings of this downloader for a destination:
    /// `destination` as written, its extension (empty for none), whether it
    /// names no directory, where statistics go, and whether paths follow
    /// Windows conventions.
    pub fn mux_config(self, stats_path: String, extension: String, destination: String, bare_destination: bool, windows: bool) -> (r: MuxConfig)
        ensures
            r.stats_path == stats_path,
            r.input_presets == self.ffmpeg_preset.input_args,
            r.output_presets == self.ffmpeg_preset.output_args,
            r.preset_custom == self.ffmpeg_preset.custom,
            r.ffmpeg_threads == self.ffmpeg_threads,
            r.default_subtitle == self.default_subtitle,
            r.output_format == self.output_format,
            r.force_hardsub == self.force_hardsub,
            r.extension == extension,
            r.destination == destination,
            r.bare_destination == bare_destination,
            r.windows == windows,
            r.audio_languages == self.audio_locale_output_map,
            r.subtitle_languages == self.subtitle_locale_output_map,
    {
        MuxConfig {
            stats_path,
            input_presets: self.ffmpeg_preset.input_args,
            output_presets: self.ffmpeg_preset.output_args,
            preset_custom: self.ffmpeg_preset.custom,
            ffmpeg_threads: self.ffmpeg_threads,
            default_subtitle: self.default_subtitle,
            output_format: self.output_format,
            force_hardsub: self.force_hardsub,
            extension,
            destination,
            bare_destination,
            windows,
            audio_languages: self.audio_locale_output_map,
            subtitle_languages: self.subtitle_locale_output_map,
        }
    }
}

} // verus!
