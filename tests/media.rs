use crunchy_mux::chapters::{build_chapters, chapter_events, render_chapters, sort_events, write_ffmpeg_chapters};
use crunchy_mux::fonts::{font_fetch, font_file, font_url, fonts};
use crunchy_mux::model::{SkipEvent, SkipEvents};
use crunchy_mux::progress::{final_position, parse_frame, parse_video_duration, parse_video_fps, FrameLine};
use crunchy_mux::space::{space_warnings, PartitionStats};
use crunchy_mux::subtitles::{fix_subtitles, get_subtitle_stats};

fn ev(label: &str, start_s: u64, end_s: u64) -> (String, SkipEvent) {
    (label.to_string(), SkipEvent { start_ms: start_s * 1000, end_ms: end_s * 1000 })
}

#[test]
fn chapters_fill_gaps_over_ten_seconds() {
    let events = vec![ev("Intro", 10, 40), ev("Credits", 1400, 1450)];
    let chapters = build_chapters(1_500_000, &events);
    let got: Vec<(&str, u64, u64)> = chapters.iter().map(|c| (c.title.as_str(), c.start_ms, c.end_ms)).collect();
    assert_eq!(
        got,
        vec![
            ("Intro", 10_000, 40_000),
            ("Episode", 40_000, 1_400_000),
            ("Credits", 1_400_000, 1_450_000),
            ("Episode", 1_450_000, 1_500_000),
        ]
    );
}

#[test]
fn chapter_sidecar_text() {
    let text = write_ffmpeg_chapters(1_500_000, vec![ev("Credits", 1400, 1450), ev("Intro", 10, 40)]);
    assert_eq!(
        text,
        ";FFMETADATA1\n\
         [CHAPTER]\nTIMEBASE=1/1000\nSTART=10000\nEND=40000\ntitle=Intro\n\
         [CHAPTER]\nTIMEBASE=1/1000\nSTART=40000\nEND=1400000\ntitle=Episode\n\
         [CHAPTER]\nTIMEBASE=1/1000\nSTART=1400000\nEND=1450000\ntitle=Credits\n\
         [CHAPTER]\nTIMEBASE=1/1000\nSTART=1450000\nEND=1500000\ntitle=Episode\n"
    );
}

#[test]
fn chapters_without_events_and_leading_gap() {
    let only = build_chapters(30_000, &vec![]);
    assert_eq!(only.len(), 1);
    assert_eq!((only[0].title.as_str(), only[0].start_ms, only[0].end_ms), ("Episode", 0, 30_000));
    assert!(build_chapters(10_000, &vec![]).is_empty());
    let lead = build_chapters(100_000, &vec![ev("Intro", 11, 95)]);
    let got: Vec<(&str, u64, u64)> = lead.iter().map(|c| (c.title.as_str(), c.start_ms, c.end_ms)).collect();
    assert_eq!(got, vec![("Episode", 0, 11_000), ("Intro", 11_000, 95_000)]);
    assert_eq!(render_chapters(&vec![]), ";FFMETADATA1\n");
}

#[test]
fn chapter_starts_never_decrease() {
    let events = sort_events(vec![ev("Preview", 600, 620), ev("Recap", 0, 100), ev("Intro", 50, 60), ev("Credits", 300, 400)]);
    let chapters = build_chapters(700_000, &events);
    for w in chapters.windows(2) {
        assert!(w[0].start_ms <= w[1].start_ms);
    }
    let titles: Vec<&str> = chapters.iter().map(|c| c.title.as_str()).collect();
    assert_eq!(titles, vec!["Recap", "Intro", "Episode", "Credits", "Episode", "Preview", "Episode"]);
}

#[test]
fn skip_events_in_label_order() {
    let skip = SkipEvents {
        recap: None,
        intro: Some(SkipEvent { start_ms: 1, end_ms: 2 }),
        credits: Some(SkipEvent { start_ms: 3, end_ms: 4 }),
        preview: None,
    };
    let got: Vec<String> = chapter_events(&skip).into_iter().map(|(l, _)| l).collect();
    assert_eq!(got, vec!["Intro".to_string(), "Credits".to_string()]);
}

#[test]
fn subtitles_get_hint_clamped_times_and_order() {
    let text = "[Script Info]\nTitle: x\n[Events]\n\
                Dialogue: 0,0:00:05.00,0:00:07.00,Default,,0,0,0,,late\n\
                Dialogue: 0,0:00:01.00,0:00:02.00,Default,,0,0,0,,early\n\
                Dialogue: 1,0:00:09.50,0:00:12.00,Default,,0,0,0,,past end";
    assert_eq!(
        fix_subtitles(text, 10_000),
        "[Script Info]\nScaledBorderAndShadow: yes\nTitle: x\n[Events]\n\
         Dialogue: 0,0:00:01.00,0:00:02.00,Default,,0,0,0,,early\n\
         Dialogue: 0,0:00:05.00,0:00:07.00,Default,,0,0,0,,late\n\
         Dialogue: 1,00:00:09.500,00:00:10.000,Default,,0,0,0,,past end"
    );
}

#[test]
fn cue_starting_after_the_end_is_clamped_whole() {
    let text = "Dialogue: 3,0:00:11.00,0:00:12.00,Default,,0,0,0,,gone";
    assert_eq!(fix_subtitles(text, 10_000), "Dialogue: 3,00:00:10.000,00:00:10.000,Default,,0,0,0,,gone");
    assert_eq!(fix_subtitles("", 10_000), "");
    assert_eq!(fix_subtitles("  [Script Info]\r", 5), "  [Script Info]\r\nScaledBorderAndShadow: yes");
}

#[test]
fn subtitle_fonts_in_order_of_mention() {
    let text = "Style: Default,Arial,20,&H00FFFFFF\n\
                Style: Sign,Trebuchet MS,18,&H00FFFFFF\n\
                Dialogue: 0,0:00:01.00,0:00:02.00,Default,,0,0,0,,{\\fnArial\\b1}Hi\n\
                Dialogue: 0,0:00:03.00,0:00:04.00,Default,,0,0,0,,{\\fnComic Sans MS}Yo";
    assert_eq!(
        get_subtitle_stats(text),
        vec!["Arial".to_string(), "Trebuchet MS".to_string(), "Comic Sans MS".to_string()]
    );
    assert!(get_subtitle_stats("Comment: 0,{\\fnArial}").is_empty());
}

#[test]
fn font_table_lookup_and_url() {
    assert_eq!(fonts().len(), 68);
    assert_eq!(font_file("Arial"), Some("arial.woff2".to_string()));
    assert_eq!(font_file("Webdings"), Some("webdings.woff2".to_string()));
    assert_eq!(font_file("Papyrus"), None);
    assert_eq!(
        font_url("arial.woff2"),
        "https://static.crunchyroll.com/vilos-v2/web/vilos/assets/libass-fonts/arial.woff2"
    );
}

#[test]
fn second_font_fetch_comes_from_the_cache() {
    let first = font_fetch("Times New Roman", false).unwrap();
    assert_eq!(first.file, "times.woff2");
    assert!(!first.cached);
    let second = font_fetch("Times New Roman", true).unwrap();
    assert_eq!(second.file, first.file);
    assert_eq!(second.url, first.url);
    assert!(second.cached);
    assert!(font_fetch("Unknown Font", true).is_none());
}

#[test]
fn shared_partition_needs_room_for_both() {
    let tmp = PartitionStats { total: 5000, available: 1500 };
    let dst = PartitionStats { total: 5000, available: 1600 };
    assert_eq!(space_warnings(1000, tmp, dst, true), (Some(1000), Some(1000)));
    assert_eq!(space_warnings(1000, tmp, dst, false), (Some(1000), None));
    // each partition alone would hold the download, together they do not
    let roomy = PartitionStats { total: 5000, available: 1500 };
    assert_eq!(space_warnings(1000, roomy, PartitionStats { total: 5000, available: 1550 }, true), (Some(1000), Some(1000)));
    assert_eq!(space_warnings(700, roomy, PartitionStats { total: 5000, available: 1550 }, true), (None, None));
    let other = PartitionStats { total: 9000, available: 1600 };
    assert_eq!(space_warnings(1000, tmp, other, true), (None, None));
    assert_eq!(space_warnings(2000, tmp, other, true), (Some(2000), Some(2000)));
}

#[test]
fn frame_counter_is_read_from_statistics() {
    assert_eq!(parse_frame("frame=  123 fps= 24 q=-1.0 size=1kB"), FrameLine::Frame(123));
    assert_eq!(parse_frame("x frame=7 frame=\t8"), FrameLine::Frame(8));
    assert_eq!(parse_frame("frame=123"), FrameLine::NoFrame);
    assert_eq!(parse_frame(""), FrameLine::NoFrame);
    assert_eq!(parse_frame("frame= 99999999999999999999999"), FrameLine::TooLarge);
    assert_eq!(final_position(10, 100), Some(100));
    assert_eq!(final_position(100, 100), None);
}

#[test]
fn video_duration_and_rate_from_the_report() {
    let report = "Input #0, mov,mp4\n  Duration: 00:23:40.05, start: 0.000000, bitrate: 1 kb/s\n  \
                  Stream #0:0: Video: h264, yuv420p, 1920x1080, 23.98 fps, 23.98 tbr";
    assert_eq!(parse_video_duration(report), Some(1_420_050));
    assert_eq!(parse_video_fps(report), Some("23.98".to_string()));
    assert_eq!(parse_video_duration("Duration: N/A"), None);
    assert_eq!(parse_video_fps("24000/1001 fps"), Some("24000/1001".to_string()));
    assert_eq!(parse_video_fps("no rate"), None);
}
