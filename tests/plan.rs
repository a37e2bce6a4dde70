use crunchy_mux::download::{DownloadBuilder, FFmpegPreset};
use crunchy_mux::model::Locale;
use crunchy_mux::plan::{
    build_mux_args, filter_path_of, language_for, strip_copy_args, supports_soft_subtitles, AudioInput, MuxConfig,
    SubtitleInput, VideoInput,
};

fn locale(tag: &str, name: &str) -> Locale {
    Locale { tag: tag.to_string(), name: name.to_string() }
}

fn strings(v: &[&str]) -> Vec<String> {
    v.iter().map(|s| s.to_string()).collect()
}

fn config(extension: &str, destination: &str, hardsub: bool, default_subtitle: Option<Locale>) -> MuxConfig {
    DownloadBuilder::new()
        .force_hardsub(hardsub)
        .default_subtitle(default_subtitle)
        .build()
        .mux_config("/tmp/stats".to_string(), extension.to_string(), destination.to_string(), !destination.contains('/'), false)
}

fn video(path: &str, start: Option<i64>) -> VideoInput {
    VideoInput { path: path.to_string(), start_ms: start }
}

fn audio(path: &str, l: Locale, start: Option<i64>, video_idx: usize) -> AudioInput {
    AudioInput { path: path.to_string(), locale: l, start_ms: start, video_idx }
}

fn subtitle(path: &str, l: Locale, cc: bool, video_idx: usize) -> SubtitleInput {
    SubtitleInput { path: path.to_string(), locale: l, cc, start_ms: None, video_idx }
}

fn count(args: &[String], t: &str) -> usize {
    args.iter().filter(|a| a.as_str() == t).count()
}

#[test]
fn single_video_single_audio_plan() {
    let cfg = config("mkv", "out.mkv", false, None);
    let args = build_mux_args(
        &cfg,
        &vec![video("/tmp/v.mp4", None)],
        &vec![audio("/tmp/a.m4a", locale("ja-JP", "Japanese"), None, 0)],
        &vec![],
        &vec![],
        &None,
    );
    assert_eq!(
        args,
        strings(&[
            "-y", "-hide_banner", "-vstats_file", "/tmp/stats", "-i", "/tmp/v.mp4", "-i", "/tmp/a.m4a", "-map", "0",
            "-map", "1", "-metadata:s:v:0", "title=Default", "-metadata:s:v:0", "language=", "-metadata:s:a:0",
            "language=ja-JP", "-metadata:s:a:0", "title=Japanese", "-c:v", "copy", "-c:a", "copy", "./out.mkv",
        ])
    );
    assert_eq!(count(&args, "-i"), 2);
    assert_eq!(count(&args, "-map"), 2);
}

#[test]
fn merged_audio_carries_its_offset() {
    let cfg = config("mp4", "/videos/out.mp4", false, None);
    let args = build_mux_args(
        &cfg,
        &vec![video("/tmp/v.mp4", Some(0))],
        &vec![
            audio("/tmp/a.m4a", locale("ja-JP", "Japanese"), Some(0), 0),
            audio("/tmp/b.m4a", locale("de-DE", "German"), Some(500), 0),
        ],
        &vec![],
        &vec![],
        &None,
    );
    let pos = args.iter().position(|a| a == "/tmp/b.m4a").unwrap();
    assert_eq!(&args[pos - 3..pos], &strings(&["-ss", "00:00:00.500", "-i"])[..]);
    assert_eq!(args.last().unwrap(), "/videos/out.mp4");
}

#[test]
fn several_videos_name_their_tracks() {
    let cfg = config("mkv", "/o/out.mkv", false, None);
    let args = build_mux_args(
        &cfg,
        &vec![video("/tmp/v1.mp4", None), video("/tmp/v2.mp4", None)],
        &vec![audio("/tmp/a.m4a", locale("de-DE", "German"), None, 1)],
        &vec![subtitle("/tmp/s.ass", locale("en-US", "English"), true, 1)],
        &vec![],
        &None,
    );
    assert!(args.contains(&"title=#1".to_string()));
    assert!(args.contains(&"title=#2".to_string()));
    assert!(args.contains(&"title=German [Video: #2]".to_string()));
    assert!(args.contains(&"title=en-US (CC) [Video: #2]".to_string()));
}

#[test]
fn every_stream_input_gets_one_map_and_chapters_one_map_metadata() {
    let cfg = config("mkv", "/o/out.mkv", false, None);
    let args = build_mux_args(
        &cfg,
        &vec![video("/tmp/v.mp4", None)],
        &vec![audio("/tmp/a.m4a", locale("ja-JP", "Japanese"), None, 0), audio("/tmp/b.m4a", locale("de-DE", "German"), None, 0)],
        &vec![subtitle("/tmp/s1.ass", locale("en-US", "English"), false, 0), subtitle("/tmp/s2.ass", locale("de-DE", "German"), true, 0)],
        &strings(&["/fonts/arial.woff2"]),
        &Some("/tmp/c.chapter".to_string()),
    );
    assert_eq!(count(&args, "-map"), 5);
    assert_eq!(count(&args, "-map_metadata"), 1);
    let at = args.iter().position(|a| a == "-map_metadata").unwrap();
    assert_eq!(args[at + 1], "5");
    assert_eq!(count(&args, "-i"), 6);
    let at = args.iter().position(|a| a == "-attach").unwrap();
    assert_eq!(args[at + 1], "/fonts/arial.woff2");
    assert!(args.contains(&"mimetype=font/woff2".to_string()));
}

#[test]
fn closed_captions_are_forced_and_default_subtitle_marked() {
    let cfg = config("mkv", "/o/out.mkv", false, Some(locale("en-US", "English")));
    let args = build_mux_args(
        &cfg,
        &vec![video("/tmp/v.mp4", None)],
        &vec![audio("/tmp/a.m4a", locale("ja-JP", "Japanese"), None, 0)],
        &vec![subtitle("/tmp/s0.ass", locale("de-DE", "German"), true, 0), subtitle("/tmp/s1.ass", locale("en-US", "English"), false, 0)],
        &vec![],
        &None,
    );
    let d = args.iter().position(|a| a == "-disposition:s:s:1").unwrap();
    assert_eq!(args[d + 1], "default");
    let f = args.iter().position(|a| a == "-disposition:s:s:0").unwrap();
    assert_eq!(args[f + 1], "forced");
    assert_eq!(count(&args, "-map"), 4);
}

#[test]
fn hardsub_burns_the_default_subtitle_in() {
    let cfg = config("mp4", "/o/out.mp4", true, Some(locale("en-US", "English")));
    assert!(!supports_soft_subtitles(&cfg));
    let args = build_mux_args(
        &cfg,
        &vec![video("/tmp/v.mp4", None)],
        &vec![audio("/tmp/a.m4a", locale("ja-JP", "Japanese"), None, 0)],
        &vec![subtitle("/tmp/s.ass", locale("en-US", "English"), true, 0)],
        &vec![],
        &None,
    );
    let vf = args.iter().position(|a| a == "-vf").unwrap();
    assert_eq!(args[vf + 1], "ass='/tmp/s.ass'");
    assert_eq!(count(&args, "copy"), 0);
    assert!(!args.iter().any(|a| a.starts_with("-disposition:s:s:")));
    assert!(!args.contains(&"/tmp/s.ass".to_string()));
    assert_eq!(count(&args, "-map"), 2);
}

#[test]
fn mp4_soft_subtitles_use_mov_text() {
    let cfg = config("mp4", "/o/out.mp4", false, Some(locale("en-US", "English")));
    let args = build_mux_args(
        &cfg,
        &vec![video("/tmp/v.mp4", None)],
        &vec![],
        &vec![subtitle("/tmp/s.ass", locale("en-US", "English"), false, 0)],
        &vec![],
        &None,
    );
    let tail = &args[args.len() - 9..];
    assert_eq!(tail, &strings(&["-c:v", "copy", "-c:a", "copy", "-movflags", "faststart", "-c:s", "mov_text", "/o/out.mp4"])[..]);
}

#[test]
fn threads_and_format_are_passed_on() {
    let mut cfg = config("mkv", "-", false, None);
    cfg.ffmpeg_threads = Some(4);
    cfg.output_format = Some("matroska".to_string());
    cfg.bare_destination = false;
    let args = build_mux_args(&cfg, &vec![video("/tmp/v.mp4", None)], &vec![], &vec![], &vec![], &None);
    let t = args.iter().position(|a| a == "-threads").unwrap();
    assert_eq!(args[t + 1], "4");
    assert_eq!(&args[args.len() - 3..], &strings(&["-f", "matroska", "-"])[..]);
    cfg.preset_custom = true;
    let args = build_mux_args(&cfg, &vec![video("/tmp/v.mp4", None)], &vec![], &vec![], &vec![], &None);
    assert_eq!(count(&args, "-threads"), 0);
}

#[test]
fn copy_pairs_are_stripped() {
    let args = strings(&["-c:v", "copy", "-crf", "20", "-c:a", "copy", "-c:a", "-c:v", "copy", "copy"]);
    assert_eq!(strip_copy_args(&args), strings(&["-crf", "20", "-c:a", "copy"]));
    let preset = FFmpegPreset::stream_copy();
    assert!(strip_copy_args(&preset.output_args).is_empty());
}

#[test]
fn windows_paths_are_escaped_for_the_filter() {
    assert_eq!(filter_path_of(&"C:\\tmp\\s.ass".to_string(), true), "C\\:\\\\tmp\\\\s.ass");
    assert_eq!(filter_path_of(&"C:\\tmp\\s.ass".to_string(), false), "C:\\tmp\\s.ass");
}

#[test]
fn output_languages_come_from_the_table() {
    let table = vec![("ja-JP".to_string(), "jpn".to_string()), ("de-DE".to_string(), "ger".to_string())];
    assert_eq!(language_for(&table, &"de-DE".to_string()), "ger");
    assert_eq!(language_for(&table, &"en-US".to_string()), "en-US");
    let mut cfg = config("mkv", "/o/out.mkv", false, None);
    cfg.audio_languages = table;
    let args = build_mux_args(
        &cfg,
        &vec![video("/tmp/v.mp4", None)],
        &vec![audio("/tmp/a.m4a", locale("ja-JP", "Japanese"), None, 0)],
        &vec![],
        &vec![],
        &None,
    );
    assert!(args.contains(&"language=jpn".to_string()));
}
