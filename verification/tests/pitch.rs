use bit_music::model::Sample;
use bit_music::note::parse_note;
use bit_music::pitch::semitone_shift;

fn sample_at(root_note: &str, root_octave: u8) -> Sample {
    Sample {
        id: "s".to_string(),
        file: "s.wav".to_string(),
        root_note: Some(root_note.to_string()),
        root_octave: Some(root_octave),
    }
}

#[test]
fn the_root_note_itself_needs_no_shift() {
    assert_eq!(semitone_shift(&sample_at("C", 4), &parse_note("C4").unwrap()), 0);
}

#[test]
fn an_octave_is_twelve_semitones_either_way() {
    assert_eq!(semitone_shift(&sample_at("C", 4), &parse_note("C5").unwrap()), 12);
    assert_eq!(semitone_shift(&sample_at("C", 4), &parse_note("C3").unwrap()), -12);
}

#[test]
fn the_root_accidental_counts() {
    assert_eq!(semitone_shift(&sample_at("C#", 4), &parse_note("D4").unwrap()), 1);
    assert_eq!(semitone_shift(&sample_at("bb", 2), &parse_note("C3").unwrap()), 2);
}
