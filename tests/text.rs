use crunchy_mux::merge::MergeBehavior;
use crunchy_mux::text::format_time_delta;

#[test]
fn merge_behavior_ignores_case() {
    assert_eq!(MergeBehavior::parse("video"), Ok(MergeBehavior::Video));
    assert_eq!(MergeBehavior::parse("AUDIO"), Ok(MergeBehavior::Audio));
    assert_eq!(MergeBehavior::parse("Auto"), Ok(MergeBehavior::Auto));
    assert_eq!(MergeBehavior::parse("sYnC"), Ok(MergeBehavior::Sync));
}

#[test]
fn merge_behavior_rejects_unknown_names() {
    assert_eq!(
        MergeBehavior::parse("both"),
        Err("'both' is not a valid merge behavior".to_string())
    );
    assert_eq!(MergeBehavior::parse(""), Err("'' is not a valid merge behavior".to_string()));
    assert_eq!(MergeBehavior::parse_lowered("VIDEO"), None);
    assert_eq!(MergeBehavior::parse_lowered("video"), Some(MergeBehavior::Video));
}

#[test]
fn time_deltas_are_written_with_milliseconds() {
    assert_eq!(format_time_delta(500), "00:00:00.500");
    assert_eq!(format_time_delta(0), "00:00:00.000");
    assert_eq!(format_time_delta(3_723_004), "01:02:03.004");
    assert_eq!(format_time_delta(-1500), "-00:00:01.500");
    assert_eq!(format_time_delta(100 * 3_600_000), "100:00:00.000");
    assert_eq!(format_time_delta(i64::MIN), "-2562047788015:12:55.808");
}
