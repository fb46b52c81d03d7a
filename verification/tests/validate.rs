use bit_music::composition::{parse_composition, FormatError};
use bit_music::model::{Arrangement, Composition, KeyValue, Metadata, Pattern, Sample, Track};
use bit_music::validate::{
    apply_sample_defaults, parse_u8, resolve_sample_defaults, validate, ValidationError,
};

fn valid_composition(version: &str) -> Composition {
    Composition {
        metadata: Metadata {
            version: version.to_string(),
            title: "test".to_string(),
            bpm: 120,
            steps_per_beat: 4,
            others: Vec::<KeyValue>::new(),
        },
        samples: vec![Sample {
            id: "s".to_string(),
            file: "s.wav".to_string(),
            root_note: Some("C".to_string()),
            root_octave: Some(4),
        }],
        patterns: vec![Pattern {
            id: "p".to_string(),
            sample: "s".to_string(),
            steps: vec![Some("C4".to_string()), None, None, None],
        }],
        arrangement: Arrangement {
            tracks: vec![Track { id: "t".to_string(), sequence: vec![Some("p".to_string())] }],
        },
    }
}

fn others(pairs: &[(&str, &str)]) -> Vec<KeyValue> {
    pairs.iter().map(|(k, v)| KeyValue { key: k.to_string(), value: v.to_string() }).collect()
}

#[test]
fn accepts_a_supported_format_version() {
    assert!(validate(&valid_composition("1.0")).is_ok());
}

#[test]
fn rejects_an_unsupported_format_version() {
    let err = validate(&valid_composition("2.0")).unwrap_err();
    assert!(matches!(
        err,
        ValidationError::UnsupportedFormatVersion { found } if found == "2.0"
    ));
}

#[test]
fn every_rule_has_its_own_error() {
    let mut c = valid_composition("1.0");
    c.metadata.bpm = 0;
    assert!(matches!(validate(&c), Err(ValidationError::InvalidBpm)));

    let mut c = valid_composition("1.0");
    c.metadata.steps_per_beat = 0;
    assert!(matches!(validate(&c), Err(ValidationError::InvalidStepsPerBeat)));

    let mut c = valid_composition("1.0");
    c.samples.clear();
    assert!(matches!(validate(&c), Err(ValidationError::NoSamples)));

    let mut c = valid_composition("1.0");
    c.patterns.clear();
    assert!(matches!(validate(&c), Err(ValidationError::NoPatterns)));

    let mut c = valid_composition("1.0");
    c.arrangement.tracks.clear();
    assert!(matches!(validate(&c), Err(ValidationError::NoTracks)));

    let mut c = valid_composition("1.0");
    let again = c.samples[0].clone();
    c.samples.push(again);
    assert!(matches!(validate(&c), Err(ValidationError::DuplicateSampleId { id }) if id == "s"));

    let mut c = valid_composition("1.0");
    c.samples[0].root_note = Some("H".to_string());
    assert!(matches!(validate(&c), Err(ValidationError::InvalidRootNote { note, .. }) if note == "H"));

    let mut c = valid_composition("1.0");
    c.samples[0].root_octave = Some(9);
    assert!(matches!(validate(&c), Err(ValidationError::RootOctaveOutOfRange { octave: 9, .. })));

    let mut c = valid_composition("1.0");
    let again = c.patterns[0].clone();
    c.patterns.push(again);
    assert!(matches!(validate(&c), Err(ValidationError::DuplicatePatternId { id }) if id == "p"));

    let mut c = valid_composition("1.0");
    c.patterns[0].sample = "nope".to_string();
    assert!(matches!(
        validate(&c),
        Err(ValidationError::UnknownSampleReference { sample_id, .. }) if sample_id == "nope"
    ));

    let mut c = valid_composition("1.0");
    c.patterns[0].steps.push(None);
    assert!(matches!(validate(&c), Err(ValidationError::StepsNotMultipleOfFour { len: 5, .. })));

    let mut c = valid_composition("1.0");
    c.patterns[0].steps[2] = Some("C9".to_string());
    assert!(matches!(
        validate(&c),
        Err(ValidationError::InvalidNote { index: 2, note, .. }) if note == "C9"
    ));

    let mut c = valid_composition("1.0");
    let again = c.arrangement.tracks[0].clone();
    c.arrangement.tracks.push(again);
    assert!(matches!(validate(&c), Err(ValidationError::DuplicateTrackId { id }) if id == "t"));

    let mut c = valid_composition("1.0");
    c.arrangement.tracks[0].sequence.push(Some("ghost".to_string()));
    assert!(matches!(
        validate(&c),
        Err(ValidationError::UnknownPatternReference { pattern_id, .. }) if pattern_id == "ghost"
    ));
}

#[test]
fn the_first_broken_rule_is_the_one_reported() {
    // A bad version wins over an empty sample list.
    let mut c = valid_composition("0.9");
    c.samples.clear();
    assert!(matches!(validate(&c), Err(ValidationError::UnsupportedFormatVersion { .. })));
    // Samples are checked before patterns.
    let mut c = valid_composition("1.0");
    c.samples[0].root_octave = Some(12);
    c.patterns[0].sample = "nope".to_string();
    assert!(matches!(validate(&c), Err(ValidationError::RootOctaveOutOfRange { .. })));
}

#[test]
fn defaults_come_from_metadata_others_or_c4() {
    let mut m = valid_composition("1.0").metadata;
    let (note, octave) = resolve_sample_defaults(&m).unwrap();
    assert_eq!((note.as_str(), octave), ("C", 4));

    m.others = others(&[("sampleDefaultNote", "E"), ("sampleDefaultOctave", "3")]);
    let (note, octave) = resolve_sample_defaults(&m).unwrap();
    assert_eq!((note.as_str(), octave), ("E", 3));

    m.others = others(&[("sampleDefaultNote", "X")]);
    assert!(matches!(resolve_sample_defaults(&m), Err(ValidationError::InvalidDefaultRootNote(v)) if v == "X"));

    m.others = others(&[("sampleDefaultOctave", "9")]);
    assert!(matches!(resolve_sample_defaults(&m), Err(ValidationError::InvalidDefaultRootOctave(v)) if v == "9"));

    // The first entry of a key counts.
    m.others = others(&[("sampleDefaultOctave", "2"), ("sampleDefaultOctave", "x")]);
    assert_eq!(resolve_sample_defaults(&m).unwrap().1, 2);
}

#[test]
fn bytes_are_read_like_unsigned_integers() {
    assert_eq!(parse_u8("4"), Some(4));
    assert_eq!(parse_u8("+8"), Some(8));
    assert_eq!(parse_u8("007"), Some(7));
    assert_eq!(parse_u8("255"), Some(255));
    assert_eq!(parse_u8("256"), None);
    assert_eq!(parse_u8(""), None);
    assert_eq!(parse_u8("+"), None);
    assert_eq!(parse_u8("-1"), None);
    assert_eq!(parse_u8(" 4"), None);
}

#[test]
fn applying_defaults_fills_only_what_is_missing() {
    let mut c = valid_composition("1.0");
    c.metadata.others = others(&[("sampleDefaultNote", "E"), ("sampleDefaultOctave", "3")]);
    c.samples.push(Sample { id: "t".to_string(), file: "t.wav".to_string(), root_note: None, root_octave: None });
    apply_sample_defaults(&mut c).unwrap();
    assert_eq!(c.samples[0].root_note.as_deref(), Some("C"));
    assert_eq!(c.samples[0].root_octave, Some(4));
    assert_eq!(c.samples[1].root_note.as_deref(), Some("E"));
    assert_eq!(c.samples[1].root_octave, Some(3));
}

#[test]
fn parse_applies_defaults_from_metadata_others() {
    let mut c = valid_composition("1.0");
    c.metadata.others = others(&[("sampleDefaultNote", "E"), ("sampleDefaultOctave", "3")]);
    c.samples = vec![
        Sample { id: "s".to_string(), file: "s.wav".to_string(), root_note: None, root_octave: None },
        Sample { id: "t".to_string(), file: "t.wav".to_string(), root_note: Some("A".to_string()), root_octave: Some(5) },
    ];
    let c = parse_composition(Ok(c)).unwrap();
    assert_eq!(c.samples[0].root_note.as_deref(), Some("E"));
    assert_eq!(c.samples[0].root_octave, Some(3));
    assert_eq!(c.samples[1].root_note.as_deref(), Some("A"));
    assert_eq!(c.samples[1].root_octave, Some(5));
}

#[test]
fn parse_reports_shape_errors_and_validation_errors_separately() {
    assert!(matches!(
        parse_composition(Err("expected value at line 1".to_string())),
        Err(FormatError::Parse(_))
    ));
    let mut bad_ref = valid_composition("1.0");
    bad_ref.patterns[0].sample = "nope".to_string();
    assert!(matches!(
        parse_composition(Ok(bad_ref)),
        Err(FormatError::Validation(ValidationError::UnknownSampleReference { .. }))
    ));
}
