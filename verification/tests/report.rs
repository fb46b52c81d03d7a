use bit_music::report::{all_samples_ok, ok_sample_count};
use bit_music::model::{Arrangement, Composition, Metadata, Pattern, Sample, Track};
use bit_music::report::{integrity_report, loaded_report, playing_steps, sample_check_report, track_report};
use bit_music::timeline::resolve;

fn composition() -> Composition {
    Composition {
        metadata: Metadata {
            version: "1.0".to_string(),
            title: "Demo".to_string(),
            bpm: 120,
            steps_per_beat: 4,
            others: vec![],
        },
        samples: vec![Sample {
            id: "kick".to_string(),
            file: "kick.wav".to_string(),
            root_note: Some("C".to_string()),
            root_octave: Some(4),
        }],
        patterns: vec![Pattern {
            id: "kickA".to_string(),
            sample: "kick".to_string(),
            steps: vec![Some("C4".to_string()), None, None, None],
        }],
        arrangement: Arrangement {
            tracks: vec![Track { id: "drums".to_string(), sequence: vec![Some("kickA".to_string()), None] }],
        },
    }
}

#[test]
fn the_integrity_line_counts_the_parts() {
    assert_eq!(
        integrity_report(&composition()),
        "OK: 'Demo' (format version 1.0) is structurally valid (1 samples, 1 patterns, 1 tracks)"
    );
}

#[test]
fn the_loaded_line_gives_the_tempo() {
    assert_eq!(
        loaded_report(&composition()),
        "'Demo' (format version 1.0) loaded: 1 samples, 1 patterns, 1 tracks (bpm=120)"
    );
}

#[test]
fn a_track_line_counts_playing_and_silent_steps() {
    let timeline = resolve(&composition());
    let track = &timeline.tracks[0];
    assert_eq!(playing_steps(track), 1);
    assert_eq!(track_report(track), "  track 'drums': 8 steps, 1 playing, 7 silent");
}

#[test]
fn sample_lines_say_ok_or_why_not() {
    assert_eq!(sample_check_report("kick", "/s/kick.wav", None), "OK: sample 'kick' -> /s/kick.wav");
    assert_eq!(
        sample_check_report("kick", "/s/kick.wav", Some("not found")),
        "FAIL: sample 'kick' -> /s/kick.wav: not found"
    );
}

#[test]
fn sample_checks_are_counted() {
    assert_eq!(ok_sample_count(&vec![true, false, true]), 2);
    assert!(!all_samples_ok(&vec![true, false, true]));
    assert!(all_samples_ok(&vec![true, true]));
    assert!(all_samples_ok(&vec![]));
}
