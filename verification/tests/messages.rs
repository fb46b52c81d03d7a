use bit_music::composition::FormatError;
use bit_music::note::NoteParseError;
use bit_music::project::ProjectError;
use bit_music::validate::ValidationError;

#[test]
fn note_error_messages_quote_what_was_read() {
    assert_eq!(
        NoteParseError::InvalidFormat("H".into()).to_string(),
        "invalid note format: 'H' (expected NOTE[#|b]OCTAVE, e.g. 'C4', 'C#4', 'Db3')"
    );
    assert_eq!(NoteParseError::InvalidLetter('X').to_string(), "invalid note letter 'X' (must be A-G)");
    assert_eq!(NoteParseError::OctaveOutOfRange(12).to_string(), "octave out of range (0-8): 12");
}

#[test]
fn validation_errors_name_the_element_and_the_rule() {
    assert_eq!(
        ValidationError::StepsNotMultipleOfFour { id: "a".into(), len: 6 }.to_string(),
        "pattern 'a': steps length must be a multiple of 4 (got 6)"
    );
    assert_eq!(
        ValidationError::InvalidNote {
            id: "a".into(),
            index: 3,
            note: "C9".into(),
            source: NoteParseError::OctaveOutOfRange(9),
        }
        .to_string(),
        "pattern 'a': invalid note 'C9' at steps[3]: octave out of range (0-8): 9"
    );
    assert_eq!(
        ValidationError::UnknownPatternReference { track_id: "t".into(), pattern_id: "p".into() }.to_string(),
        "track 't': reference to unknown pattern 'p'"
    );
    assert_eq!(
        ValidationError::UnknownSampleReference { pattern_id: "p".into(), sample_id: "s".into() }.to_string(),
        "pattern 'p': reference to unknown sample 's'"
    );
    assert_eq!(
        ValidationError::InvalidRootNote { id: "s".into(), note: "H".into() }.to_string(),
        "sample 's': invalid rootNote 'H'"
    );
    assert_eq!(
        ValidationError::RootOctaveOutOfRange { id: "s".into(), octave: 9 }.to_string(),
        "sample 's': rootOctave out of range (0-8), got 9"
    );
    assert_eq!(
        ValidationError::InvalidDefaultRootNote("Z".into()).to_string(),
        "metadata.others['sampleDefaultNote'] is invalid: 'Z'"
    );
    assert_eq!(
        ValidationError::InvalidDefaultRootOctave("x".into()).to_string(),
        "metadata.others['sampleDefaultOctave'] is invalid: 'x' (must be an integer 0-8)"
    );
    assert_eq!(
        ValidationError::UnsupportedFormatVersion { found: "2.0".into() }.to_string(),
        "unsupported metadata.version '2.0' (this build of bm supports: 1.0)"
    );
    assert_eq!(ValidationError::InvalidBpm.to_string(), "metadata.bpm must be greater than 0");
    assert_eq!(ValidationError::InvalidStepsPerBeat.to_string(), "metadata.stepsPerBeat must be greater than 0");
    assert_eq!(
        ValidationError::DuplicateSampleId { id: "k".into() }.to_string(),
        "two samples share the same id 'k'"
    );
    assert_eq!(
        ValidationError::DuplicatePatternId { id: "k".into() }.to_string(),
        "two patterns share the same id 'k'"
    );
    assert_eq!(ValidationError::DuplicateTrackId { id: "k".into() }.to_string(), "two tracks share the same id 'k'");
    assert_eq!(ValidationError::NoSamples.to_string(), "the composition has no samples");
    assert_eq!(ValidationError::NoPatterns.to_string(), "the composition has no patterns");
    assert_eq!(ValidationError::NoTracks.to_string(), "the arrangement has no tracks");
}

#[test]
fn format_and_loading_errors_wrap_their_cause() {
    assert_eq!(
        FormatError::Parse("missing field `metadata`".into()).to_string(),
        "the JSON does not have the expected shape: missing field `metadata`"
    );
    assert_eq!(
        FormatError::Validation(ValidationError::NoTracks).to_string(),
        "invalid composition: the arrangement has no tracks"
    );
    assert_eq!(
        ProjectError::Io { path: "/x.bm1".into(), message: "not found".into() }.to_string(),
        "could not read file '/x.bm1': not found"
    );
    assert_eq!(
        ProjectError::Format(FormatError::Validation(ValidationError::InvalidBpm)).to_string(),
        "invalid composition: metadata.bpm must be greater than 0"
    );
}
