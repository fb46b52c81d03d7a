use bit_music::model::{Arrangement, Composition, Metadata, Pattern, Sample, Track};
use bit_music::timeline::{resolve, Column, FALLBACK_COLUMN_STEPS};

fn pattern(id: &str, sample: &str, steps: &[Option<&str>]) -> Pattern {
    Pattern {
        id: id.to_string(),
        sample: sample.to_string(),
        steps: steps.iter().map(|s| s.map(str::to_string)).collect(),
    }
}

fn track(id: &str, sequence: &[Option<&str>]) -> Track {
    Track { id: id.to_string(), sequence: sequence.iter().map(|s| s.map(str::to_string)).collect() }
}

fn sample(id: &str) -> Sample {
    Sample {
        id: id.to_string(),
        file: format!("{id}.wav"),
        root_note: Some("C".to_string()),
        root_octave: Some(4),
    }
}

fn composition(patterns: Vec<Pattern>, tracks: Vec<Track>) -> Composition {
    Composition {
        metadata: Metadata {
            version: "1.0".to_string(),
            title: "test".to_string(),
            bpm: 120,
            steps_per_beat: 4,
            others: vec![],
        },
        samples: vec![sample("kick"), sample("lead")],
        patterns,
        arrangement: Arrangement { tracks },
    }
}

#[test]
fn column_duration_is_the_longest_pattern_at_that_position() {
    let comp = composition(
        vec![
            pattern("short", "kick", &[Some("C4"), None, Some("C4"), None]),
            pattern("long", "lead", &[Some("C4"), None, None, None, Some("C4"), None, None, None]),
        ],
        vec![track("a", &[Some("short")]), track("b", &[Some("long")])],
    );
    let resolved = resolve(&comp);
    assert_eq!(resolved.total_steps, 8);
    assert_eq!(resolved.tracks[0].steps.len(), 8);
    assert_eq!(resolved.tracks[1].steps.len(), 8);
    assert!(resolved.tracks[0].steps[4].is_none());
    assert!(resolved.tracks[0].steps[5].is_none());
}

#[test]
fn shorter_sequence_loops_to_cover_all_columns() {
    let comp = composition(
        vec![pattern("p", "kick", &[Some("C4"), None, None, None])],
        vec![track("a", &[Some("p")]), track("b", &[Some("p"), Some("p"), Some("p")])],
    );
    let resolved = resolve(&comp);
    assert_eq!(resolved.total_steps, 12);
    let a = &resolved.tracks[0].steps;
    assert!(a[0].is_some());
    assert!(a[4].is_some());
    assert!(a[8].is_some());
}

#[test]
fn simultaneous_null_column_falls_back_to_four_steps() {
    let comp = composition(
        vec![pattern("p", "kick", &[Some("C4"), None, None, None])],
        vec![track("a", &[Some("p"), None]), track("b", &[None, Some("p")])],
    );
    let resolved = resolve(&comp);
    assert_eq!(resolved.total_steps, 8);

    let comp_all_null = composition(
        vec![pattern("p", "kick", &[Some("C4"), None, None, None])],
        vec![track("a", &[None])],
    );
    let resolved_all_null = resolve(&comp_all_null);
    assert_eq!(resolved_all_null.total_steps, FALLBACK_COLUMN_STEPS);
}

#[test]
fn trailing_null_extends_the_longest_track_and_loop_gap_for_shorter_ones() {
    let comp = composition(
        vec![pattern("p", "kick", &[Some("C4"), None, None, None])],
        vec![track("longest", &[Some("p"), None]), track("shorter", &[Some("p")])],
    );
    let resolved = resolve(&comp);
    assert_eq!(resolved.total_steps, 8);
    assert!(resolved.tracks[0].steps[4..8].iter().all(Option::is_none));
    assert!(resolved.tracks[1].steps[4].is_some());
}

#[test]
fn columns_and_clips_describe_the_grid() {
    let comp = composition(
        vec![
            pattern("short", "kick", &[Some("C4"), None, None, None]),
            pattern("long", "lead", &[Some("C4"), None, None, None, None, None, None, None]),
        ],
        vec![track("a", &[Some("short"), None, Some("short")]), track("b", &[Some("long")])],
    );
    let r = resolve(&comp);
    assert_eq!(
        r.columns,
        vec![
            Column { start_step: 0, len_steps: 8 },
            Column { start_step: 8, len_steps: 8 },
            Column { start_step: 16, len_steps: 8 },
        ]
    );
    assert_eq!(r.total_steps, 24);
    let a = &r.tracks[0].clips;
    assert_eq!(a.len(), 2);
    assert_eq!((a[0].column, a[0].start_step, a[0].len_steps, a[0].is_repeat), (0, 0, 4, false));
    assert_eq!((a[1].column, a[1].start_step, a[1].len_steps, a[1].is_repeat), (2, 16, 4, false));
    let b = &r.tracks[1].clips;
    assert_eq!(b.len(), 3);
    assert_eq!(b.iter().map(|c| c.is_repeat).collect::<Vec<_>>(), vec![false, true, true]);
}

#[test]
fn resolved_steps_carry_the_sample_and_the_parsed_note() {
    let comp = composition(
        vec![pattern("p", "lead", &[Some("E4"), None, Some("c#3"), None])],
        vec![track("t", &[Some("p")]), track("silent", &[])],
    );
    let r = resolve(&comp);
    let step = r.tracks[0].steps[0].as_ref().unwrap();
    assert_eq!(step.sample_id, "lead");
    assert_eq!(step.note.to_string(), "E4");
    assert_eq!(r.tracks[0].steps[2].as_ref().unwrap().note.to_string(), "C#3");
    assert_eq!(r.tracks[0].id, "t");
    // An empty sequence is a silent track that defines no column.
    assert_eq!(r.columns.len(), 1);
    assert_eq!(r.tracks[1].steps.len(), 4);
    assert!(r.tracks[1].steps.iter().all(Option::is_none));
    assert!(r.tracks[1].clips.is_empty());
}
