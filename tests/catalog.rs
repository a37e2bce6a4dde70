use crunchy_mux::format::{
    episode_identifier, episode_number_or_sequence, sequence_string, Format, MediaKind, SingleFormat,
    SingleFormatCollection,
};
use crunchy_mux::model::{Locale, Subtitle};

fn format(season_id: &str, season_number: u32, sequence_number: i64, title: &str) -> SingleFormat {
    SingleFormat {
        identifier: title.to_string(),
        title: title.to_string(),
        description: String::new(),
        release_year: 2024,
        release_month: 1,
        release_day: 2,
        audio: Locale { tag: "ja-JP".to_string(), name: "Japanese".to_string() },
        subtitles: vec![],
        series_id: "G1".to_string(),
        series_name: "Series".to_string(),
        season_id: season_id.to_string(),
        season_title: season_id.to_string(),
        season_number,
        episode_id: title.to_string(),
        episode_number: "1".to_string(),
        relative_episode_number: None,
        sequence_number,
        relative_sequence_number: None,
        duration_ms: 1_440_000,
        kind: MediaKind::Episode,
    }
}

#[test]
fn sequence_numbers_are_written_like_decimals() {
    assert_eq!(sequence_string(12_500), "12.5");
    assert_eq!(sequence_string(3_000), "3");
    assert_eq!(sequence_string(1_250), "1.25");
    assert_eq!(sequence_string(1_005), "1.005");
    assert_eq!(sequence_string(0), "0");
    assert_eq!(sequence_string(-1_500), "-1.5");
}

#[test]
fn missing_identifier_and_episode_number_are_made_up() {
    assert_eq!(episode_identifier("", "G123", 2, 5_000), "G123|S2|E5");
    assert_eq!(episode_identifier("G123|S2|E5", "x", 9, 9), "G123|S2|E5");
    assert_eq!(episode_number_or_sequence("", 13_500), "13.5");
    assert_eq!(episode_number_or_sequence("13", 13_000), "13");
}

#[test]
fn specials_and_kinds() {
    let mut f = format("s", 1, 12_000, "a");
    assert!(!f.is_special());
    assert!(f.is_episode());
    assert_eq!(f.source_type(), "episode");
    f.sequence_number = 12_500;
    assert!(f.is_special());
    f.sequence_number = 0;
    assert!(f.is_special());
    f.kind = MediaKind::MusicVideo;
    assert!(!f.is_episode());
    assert_eq!(f.source_type(), "music video");
}

#[test]
fn relative_placeholders_are_found() {
    assert!(Format::has_relative_fmt("{series_name}/S{season_number}E{relative_episode_number}.mkv"));
    assert!(Format::has_relative_fmt("{relative_sequence_number}"));
    assert!(!Format::has_relative_fmt("{episode_number} {relative_episode}"));
    assert!(!Format::has_relative_fmt(""));
}

#[test]
fn collection_orders_seasons_then_episodes() {
    let mut c = SingleFormatCollection::new();
    assert!(c.is_empty());
    c.add_single_formats(vec![format("a", 1, 2_000, "a2")]);
    c.add_single_formats(vec![format("b", 1, 1_000, "b1")]);
    c.add_single_formats(vec![format("c", 0, 1_000, "c1")]);
    c.add_single_formats(vec![format("a", 1, 1_000, "a1"), format("a", 1, 1_000, "a1 dub")]);
    c.add_single_formats(vec![format("a", 1, 2_000, "a2 again")]);
    let mut order = vec![];
    while let Some(formats) = c.next() {
        order.push(formats.iter().map(|f| f.title.clone()).collect::<Vec<String>>().join("+"));
    }
    assert_eq!(order, vec!["c1", "a1+a1 dub", "a2 again", "b1"]);
    assert!(c.is_empty());
}

#[test]
fn format_takes_first_variant_and_all_locales() {
    let sub = |t: &str| (Subtitle { locale: Locale { tag: t.to_string(), name: t.to_string() }, url: String::new(), format: "ass".to_string() }, false);
    let mut dub = format("s", 1, 12_500, "dub");
    dub.audio = Locale { tag: "de-DE".to_string(), name: "German".to_string() };
    let f = Format::from_single_formats(
        vec![(format("s", 1, 12_500, "main"), vec![sub("en-US"), sub("de-DE")]), (dub, vec![])],
        1920,
        1080,
    );
    assert_eq!(f.title, "main");
    assert_eq!(f.width, 1920);
    assert_eq!(f.locales.len(), 2);
    assert_eq!(f.locales[0].0.tag, "ja-JP");
    let subs: Vec<&str> = f.locales[0].1.iter().map(|l| l.tag.as_str()).collect();
    assert_eq!(subs, vec!["en-US", "de-DE"]);
    assert_eq!(f.locales[1].0.tag, "de-DE");
    assert!(f.locales[1].1.is_empty());
    assert!(f.is_special());
}
