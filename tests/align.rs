use crunchy_mux::align::{check_alignment, effective_lengths, merge_into_root, root_variant, Alignment};
use crunchy_mux::download::{audio_inputs, locale_rank, subtitle_input, DownloadBuilder, RawAudio};
use crunchy_mux::space::required_space;
use crunchy_mux::model::{DownloadFormat, DownloadFormatMetadata, Locale, SkipEvent, SkipEvents, Subtitle};
use crunchy_mux::segments::{StreamData, StreamSegment};

fn locale(tag: &str, name: &str) -> Locale {
    Locale { tag: tag.to_string(), name: name.to_string() }
}

fn stream(lengths: &[u64]) -> StreamData {
    StreamData {
        segments: lengths
            .iter()
            .map(|&l| StreamSegment { url: format!("https://example.org/{}", l), length_ms: l })
            .collect(),
        bandwidth: 8000,
        sampling_rate: Some(44100),
    }
}

fn skip() -> SkipEvents {
    SkipEvents {
        recap: None,
        intro: Some(SkipEvent { start_ms: 10_000, end_ms: 40_000 }),
        credits: None,
        preview: None,
    }
}

fn variant(tag: &str, lengths: &[u64], subtitle_tags: &[&str]) -> DownloadFormat {
    DownloadFormat {
        video: (stream(lengths), locale(tag, tag)),
        audios: vec![(stream(lengths), locale(tag, tag))],
        subtitles: subtitle_tags
            .iter()
            .map(|t| {
                (
                    Subtitle { locale: locale(t, t), url: format!("https://example.org/{}.ass", t), format: "ass".to_string() },
                    false,
                )
            })
            .collect(),
        metadata: DownloadFormatMetadata { skip_events: Some(skip()) },
    }
}

#[test]
fn sync_that_holds_merges_into_the_root() {
    // A plays 24.000 s with offset 0, B 24.500 s with offset 0.5 s
    let totals = vec![24_000u64, 24_500];
    let offsets = Some(vec![Some(0i64), Some(500)]);
    assert_eq!(effective_lengths(&totals, offsets.as_ref().unwrap()), vec![24_000i128, 24_000]);
    // equal effective lengths: the first variant is the root
    assert_eq!(check_alignment(&totals, &offsets), Alignment::Aligned { root: 0 });

    let mut d = DownloadBuilder::new().merge_sync_tolerance(Some(10)).merge_sync_precision(Some(2)).build();
    d.add_format(variant("ja-JP", &[12_000, 12_000], &["en-US"]));
    d.add_format(variant("de-DE", &[12_000, 12_500], &["de-DE"]));
    assert!(d.wants_alignment());
    let t = d.align_variants(offsets);
    assert_eq!(t.alignment, Alignment::Aligned { root: 0 });
    assert_eq!(t.video, Some(0));
    assert_eq!(t.variants, vec![Some(0), Some(500)]);
    assert_eq!(t.subtitles, vec![Some(0), Some(500)]);
    assert_eq!(d.formats.len(), 1);
    let merged = &d.formats[0];
    assert_eq!(merged.video.1.tag, "ja-JP");
    let audio_tags: Vec<&str> = merged.audios.iter().map(|(_, l)| l.tag.as_str()).collect();
    assert_eq!(audio_tags, vec!["ja-JP", "de-DE"]);
    let sub_tags: Vec<&str> = merged.subtitles.iter().map(|(s, _)| s.locale.tag.as_str()).collect();
    assert_eq!(sub_tags, vec!["en-US", "de-DE"]);
    assert_eq!(merged.metadata.skip_events, Some(skip()));

    let raw = vec![
        RawAudio { format_id: 0, path: "/tmp/a.m4a".to_string(), locale: locale("ja-JP", "Japanese"), sample_rate: 44100, video_idx: 0 },
        RawAudio { format_id: 1, path: "/tmp/b.m4a".to_string(), locale: locale("de-DE", "German"), sample_rate: 44100, video_idx: 1 },
    ];
    let inputs = audio_inputs(raw, &t);
    assert_eq!(inputs[0].start_ms, Some(0));
    assert_eq!(inputs[1].start_ms, Some(500));
    assert_eq!(inputs[1].video_idx, 0);
}

#[test]
fn sync_spread_over_fifteen_seconds_is_rejected() {
    let totals = vec![24_000u64, 44_000];
    let offsets = Some(vec![None, Some(0i64)]);
    assert_eq!(check_alignment(&totals, &offsets), Alignment::Rejected { spread_ms: 20_000 });

    let mut d = DownloadBuilder::new().merge_sync_tolerance(Some(10)).build();
    d.add_format(variant("ja-JP", &[24_000], &[]));
    d.add_format(variant("de-DE", &[44_000], &[]));
    let t = d.align_variants(offsets);
    assert_eq!(t.alignment, Alignment::Rejected { spread_ms: 20_000 });
    assert_eq!(t.video, None);
    assert_eq!(t.variants, vec![None, None]);
    assert_eq!(d.formats.len(), 2);
    assert!(d.formats.iter().all(|f| f.metadata.skip_events.is_none()));

    let raw = vec![
        RawAudio { format_id: 0, path: "/tmp/a.m4a".to_string(), locale: locale("ja-JP", "Japanese"), sample_rate: 44100, video_idx: 0 },
        RawAudio { format_id: 1, path: "/tmp/b.m4a".to_string(), locale: locale("de-DE", "German"), sample_rate: 44100, video_idx: 1 },
    ];
    let inputs = audio_inputs(raw, &t);
    assert!(inputs.iter().all(|a| a.start_ms.is_none()));
    assert_eq!(inputs[1].video_idx, 1);
}

#[test]
fn spread_of_exactly_fifteen_seconds_is_kept() {
    let totals = vec![10_000u64, 25_000];
    assert_eq!(check_alignment(&totals, &Some(vec![None, None])), Alignment::Aligned { root: 1 });
}

#[test]
fn no_offsets_leaves_variants_apart() {
    let mut d = DownloadBuilder::new().merge_sync_tolerance(Some(10)).build();
    d.add_format(variant("ja-JP", &[1000], &[]));
    d.add_format(variant("de-DE", &[1000], &[]));
    let t = d.align_variants(None);
    assert_eq!(t.alignment, Alignment::Unavailable);
    assert_eq!(d.formats.len(), 2);
    assert!(d.formats.iter().all(|f| f.metadata.skip_events.is_none()));
}

#[test]
fn root_is_the_first_longest_variant() {
    assert_eq!(root_variant(&vec![5, 9, 9, 1]), 1);
    assert_eq!(root_variant(&vec![-3, -1, -2]), 1);
    assert_eq!(root_variant(&vec![7]), 0);
}

#[test]
fn merge_keeps_root_video_and_concatenates_tracks() {
    let formats = vec![variant("a", &[1], &["sa"]), variant("b", &[2], &["sb"]), variant("c", &[3], &["sc"])];
    let merged = merge_into_root(formats, 1);
    assert_eq!(merged.video.1.tag, "b");
    let tags: Vec<&str> = merged.audios.iter().map(|(_, l)| l.tag.as_str()).collect();
    assert_eq!(tags, vec!["a", "b", "c"]);
    let subs: Vec<&str> = merged.subtitles.iter().map(|(s, _)| s.locale.tag.as_str()).collect();
    assert_eq!(subs, vec!["sa", "sb", "sc"]);
}

#[test]
fn formats_follow_the_audio_preference() {
    let prefs = vec![locale("de-DE", "German"), locale("ja-JP", "Japanese")];
    let mut d = DownloadBuilder::new().audio_sort(Some(prefs)).build();
    d.add_format(variant("en-US", &[1], &[]));
    d.add_format(variant("ja-JP", &[1], &[]));
    d.add_format(variant("de-DE", &[1], &[]));
    d.sort_formats();
    let tags: Vec<&str> = d.formats.iter().map(|f| f.video.1.tag.as_str()).collect();
    // unlisted locales come last
    assert_eq!(tags, vec!["de-DE", "ja-JP", "en-US"]);
}

#[test]
fn closed_captions_come_first_within_a_locale() {
    let prefs = vec![locale("en-US", "English"), locale("de-DE", "German")];
    let mut d = DownloadBuilder::new().subtitle_sort(Some(prefs)).build();
    let mut f = variant("ja-JP", &[1], &[]);
    let sub = |t: &str, cc: bool| {
        (Subtitle { locale: locale(t, t), url: String::new(), format: "ass".to_string() }, cc)
    };
    f.subtitles = vec![sub("fr-FR", false), sub("de-DE", false), sub("en-US", false), sub("en-US", true)];
    d.add_format(f);
    d.sort_formats();
    let order: Vec<(&str, bool)> = d.formats[0].subtitles.iter().map(|(s, cc)| (s.locale.tag.as_str(), *cc)).collect();
    assert_eq!(order, vec![("en-US", true), ("en-US", false), ("de-DE", false), ("fr-FR", false)]);
}

#[test]
fn builder_defaults() {
    let b = DownloadBuilder::new();
    assert!(b.threads >= 1);
    assert!(!b.force_hardsub);
    let d = b.threads(3).force_hardsub(true).build();
    assert_eq!(d.download_threads, 3);
    assert!(d.force_hardsub);
    assert!(d.formats.is_empty());
    assert!(!d.wants_alignment());
}

#[test]
fn downloader_helpers() {

    let prefs = vec![locale("de-DE", "German"), locale("ja-JP", "Japanese")];
    assert_eq!(locale_rank(&prefs, &locale("ja-JP", "x")), 1);
    assert_eq!(locale_rank(&prefs, &locale("fr-FR", "x")), 2);

    let mut d = DownloadBuilder::new().download_fonts(true).build();
    assert!(d.embeds_fonts("mkv"));
    assert!(!d.embeds_fonts("mp4"));
    assert!(d.chapter_source().is_none());
    let mut first = variant("ja-JP", &[2500, 2500], &[]);
    first.metadata.skip_events = None;
    d.add_format(first);
    d.add_format(variant("de-DE", &[4000], &[]));
    assert_eq!(d.chapter_source(), Some(skip()));
    // every stream is 1000 bytes/s: video and audio of 2+2 s, then of 4 s
    assert_eq!(required_space(&d.formats), 4000 + 4000 + 4000 + 4000);

    let t = d.align_variants(Some(vec![Some(0), Some(1000)]));
    assert_eq!(t.alignment, Alignment::Aligned { root: 0 });
    let sub = Subtitle { locale: locale("en-US", "English"), url: String::new(), format: "ass".to_string() };
    let input = subtitle_input("/tmp/s.ass".to_string(), &sub, true, 0, 0, &t);
    assert_eq!(input.start_ms, None);
    assert!(input.cc);
    assert_eq!(input.locale.tag, "en-US");
}
