use bit_music::model::{Arrangement, Composition, Metadata, Pattern, Sample, Track};
use bit_music::timeline::resolve;
use bit_music::usage::{sample_users_text, track_usage};

fn pattern(id: &str, sample: &str, len: usize) -> Pattern {
    let mut steps = vec![None; len];
    steps[0] = Some("C4".to_string());
    Pattern { id: id.to_string(), sample: sample.to_string(), steps }
}

fn sample(id: &str) -> Sample {
    Sample { id: id.to_string(), file: format!("{id}.wav"), root_note: Some("C".to_string()), root_octave: Some(4) }
}

fn composition() -> Composition {
    Composition {
        metadata: Metadata {
            version: "1.0".to_string(),
            title: "t".to_string(),
            bpm: 120,
            steps_per_beat: 4,
            others: vec![],
        },
        samples: vec![sample("kick"), sample("sax"), sample("pad")],
        patterns: vec![pattern("kickA", "kick", 4), pattern("saxA", "sax", 4), pattern("kickB", "kick", 8)],
        arrangement: Arrangement {
            tracks: vec![
                Track { id: "drums".to_string(), sequence: vec![Some("kickA".to_string())] },
                Track {
                    id: "lead".to_string(),
                    sequence: vec![Some("saxA".to_string()), None, Some("saxA".to_string())],
                },
            ],
        },
    }
}

#[test]
fn a_sample_lists_the_patterns_that_play_it() {
    let c = composition();
    assert_eq!(sample_users_text(&c.patterns, "kick"), "kickA, kickB");
    assert_eq!(sample_users_text(&c.patterns, "sax"), "saxA");
    assert_eq!(sample_users_text(&c.patterns, "pad"), "none");
}

#[test]
fn a_pattern_counts_its_uses_per_track_and_those_from_looping() {
    let timeline = resolve(&composition());
    assert_eq!(track_usage(&timeline.tracks[0], "kickA").as_deref(), Some("drums: 3 time(s) (2 from looping)"));
    assert_eq!(track_usage(&timeline.tracks[1], "saxA").as_deref(), Some("lead: 2 time(s)"));
    assert_eq!(track_usage(&timeline.tracks[1], "kickA"), None);
}
