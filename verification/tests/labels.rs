use bit_music::labels::{
    duration_from_tenths, pattern_key, root_label, sample_key, startup_error_text,
    time_label_from_tenths,
};

#[test]
fn root_label_joins_note_and_octave() {
    assert_eq!(root_label(Some("C#"), Some(3)), "C#3");
    assert_eq!(root_label(None, Some(3)), "?");
}

#[test]
fn root_label_needs_both_parts() {
    assert_eq!(root_label(Some("Bb"), None), "?");
    assert_eq!(root_label(None, None), "?");
    assert_eq!(root_label(Some("A"), Some(10)), "A10");
}

#[test]
fn startup_text_includes_the_underlying_error() {
    let text = startup_error_text("no suitable graphics adapter");
    assert!(text.starts_with("bit-music gui-player could not start."));
    assert!(text.contains("no suitable graphics adapter"));
}

#[test]
fn startup_text_is_the_heading_a_blank_line_and_the_error() {
    assert_eq!(startup_error_text("x"), "bit-music gui-player could not start.\n\nx");
}

#[test]
fn preview_keys_name_the_kind_and_the_id() {
    assert_eq!(sample_key("kick"), "sample:kick");
    assert_eq!(pattern_key("saxA"), "pattern:saxA");
    assert_eq!(sample_key(""), "sample:");
}

#[test]
fn durations_format_minutes_seconds_and_tenths() {
    assert_eq!(duration_from_tenths(0), "00:00.0");
    assert_eq!(duration_from_tenths(32), "00:03.2");
    assert_eq!(duration_from_tenths(86), "00:08.6");
    assert_eq!(duration_from_tenths(750), "01:15.0");
    assert_eq!(duration_from_tenths(599), "00:59.9");
    assert_eq!(duration_from_tenths(600), "01:00.0");
    assert_eq!(duration_from_tenths(60_000), "100:00.0");
}

#[test]
fn time_label_shows_elapsed_over_total_in_tenths() {
    assert_eq!(time_label_from_tenths(32, 86), "00:03.2 / 00:08.6");
    assert_eq!(time_label_from_tenths(0, 0), "00:00.0 / 00:00.0");
}
