use bit_music::note::{is_valid_note_name, parse_note, semitone_offset, Accidental, Note, NoteParseError};

#[test]
fn parses_valid_notes() {
    assert_eq!(parse_note("C4").unwrap(), Note { letter: 'C', octave: 4, accidental: None });
    assert_eq!(
        parse_note("D3b").unwrap(),
        Note { letter: 'D', octave: 3, accidental: Some(Accidental::Flat) }
    );
    assert_eq!(
        parse_note("g8#").unwrap(),
        Note { letter: 'G', octave: 8, accidental: Some(Accidental::Sharp) }
    );
}

#[test]
fn the_accidental_goes_before_the_octave_like_in_a_daw() {
    let note = |letter, octave, accidental| Note { letter, octave, accidental };
    assert_eq!(parse_note("C#4").unwrap(), note('C', 4, Some(Accidental::Sharp)));
    assert_eq!(parse_note("Db3").unwrap(), note('D', 3, Some(Accidental::Flat)));
    assert_eq!(parse_note("bb2").unwrap(), note('B', 2, Some(Accidental::Flat)));
    assert_eq!(parse_note("g#8").unwrap(), note('G', 8, Some(Accidental::Sharp)));
    assert_eq!(parse_note("EB5").unwrap(), note('E', 5, Some(Accidental::Flat)));
}

#[test]
fn the_older_order_with_the_accidental_after_the_octave_still_reads() {
    for (old, new) in [("C4#", "C#4"), ("D3b", "Db3"), ("g8#", "G#8"), ("B2b", "Bb2"), ("A4", "A4")] {
        assert_eq!(parse_note(old).unwrap(), parse_note(new).unwrap(), "{old} vs {new}");
    }
}

#[test]
fn notes_print_in_the_canonical_spelling() {
    for (input, canonical) in [("C4#", "C#4"), ("D3b", "Db3"), ("e5", "E5"), ("F#4", "F#4")] {
        assert_eq!(parse_note(input).unwrap().to_string(), canonical);
    }
}

#[test]
fn rejects_invalid_notes() {
    assert!(parse_note("H4").is_err());
    assert!(parse_note("C9").is_err());
    assert!(parse_note("C").is_err());
    assert!(parse_note("C4##").is_err());
    assert!(parse_note("C#4#").is_err());
    assert!(parse_note("C##4").is_err());
    assert!(parse_note("Cb4b").is_err());
    assert!(parse_note("C#").is_err());
    assert!(parse_note("#4").is_err());
    assert!(parse_note("C4x").is_err());
    assert!(parse_note("C 4").is_err());
    assert!(parse_note("").is_err());
}

#[test]
fn validates_note_names() {
    for n in ["C", "C#", "Eb", "g", "ab"] {
        assert!(is_valid_note_name(n), "'{n}' should be valid");
    }
    for n in ["H", "C4", "C##", ""] {
        assert!(!is_valid_note_name(n), "'{n}' should be invalid");
    }
}

#[test]
fn semitone_offsets_match_standard_chromatic_scale() {
    assert_eq!(semitone_offset('C', None), 0);
    assert_eq!(semitone_offset('C', Some(Accidental::Sharp)), 1);
    assert_eq!(semitone_offset('D', Some(Accidental::Flat)), 1);
    assert_eq!(semitone_offset('A', None), 9);
    assert_eq!(semitone_offset('B', None), 11);
    assert_eq!(semitone_offset('B', Some(Accidental::Sharp)), 0);
    assert_eq!(semitone_offset('C', Some(Accidental::Flat)), 11);
}

#[test]
fn absolute_semitone_distance_between_octaves() {
    let c4 = Note { letter: 'C', octave: 4, accidental: None };
    let c5 = Note { letter: 'C', octave: 5, accidental: None };
    assert_eq!(c5.absolute_semitone() - c4.absolute_semitone(), 12);
    let e4 = Note { letter: 'E', octave: 4, accidental: None };
    assert_eq!(e4.absolute_semitone() - c4.absolute_semitone(), 4);
}

#[test]
fn note_errors_say_what_is_wrong() {
    assert_eq!(parse_note("h4"), Err(NoteParseError::InvalidLetter('H')));
    assert_eq!(parse_note("C9"), Err(NoteParseError::OctaveOutOfRange(9)));
    assert_eq!(parse_note("C256"), Err(NoteParseError::InvalidFormat("C256".to_string())));
    assert_eq!(parse_note("C255"), Err(NoteParseError::OctaveOutOfRange(255)));
    assert_eq!(parse_note("C04").unwrap(), Note { letter: 'C', octave: 4, accidental: None });
    assert_eq!(parse_note(""), Err(NoteParseError::InvalidFormat(String::new())));
}

#[test]
fn the_canonical_spelling_reads_back_as_the_same_note() {
    for text in ["C4", "c#4", "Db3", "B0", "G8b", "e5"] {
        let note = parse_note(text).unwrap();
        assert_eq!(parse_note(&note.to_string()).unwrap(), note);
    }
}

#[test]
fn enharmonic_spellings_are_the_same_pitch() {
    let sharp = parse_note("C#4").unwrap();
    let flat = parse_note("Db4").unwrap();
    assert_eq!(sharp.absolute_semitone(), flat.absolute_semitone());
    let b_sharp = parse_note("B#3").unwrap();
    let c = parse_note("C3").unwrap();
    assert_eq!(b_sharp.absolute_semitone(), c.absolute_semitone());
}
