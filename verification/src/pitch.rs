//! How far a note is from the note a sample was recorded at, in
//! semitones: the shift its pitch must be moved by to play that note.

use vstd::prelude::*;

use crate::model::Sample;
use crate::note::{
    absolute_semitone_spec, is_note_letter, parse_note_name, parse_note_name_spec, semitone_offset,
    semitone_offset_spec, Note,
};

verus! {

/// The absolute semitone of a root note name (`C`, `C#`, `Eb`, ...) at
/// `octave`.
pub open spec fn root_semitone(name: Seq<char>, octave: u8) -> int {
    let (letter, accidental) = parse_note_name_spec(name)->0;
    octave * 12 + semitone_offset_spec(letter, accidental)
}

/// The semitones from `sample`'s root note to `note` (negative when the
/// note is lower). The sample's root must be resolved and valid, as the
/// loader leaves every sample of a composition.
pub fn semitone_shift(sample: &Sample, note: &Note) -> (r: i32)
    requires
        sample.root_note is Some,
        parse_note_name_spec(sample.root_note->0@) is Some,
        sample.root_octave is Some,
        is_note_letter(note.letter),
    ensures
        r == absolute_semitone_spec(*note) - root_semitone(sample.root_note->0@, sample.root_octave->0),
{
    let (root_name, root_octave) = match (&sample.root_note, sample.root_octave) {
        (Some(n), Some(o)) => (n, o),
        _ => {
            return 0;
        },
    };
    let (letter, accidental) = match parse_note_name(root_name.as_str()) {
        Some(parsed) => parsed,
        None => {
            return 0;
        },
    };
    let root = root_octave as i32 * 12 + semitone_offset(letter, accidental);
    note.absolute_semitone() - root
}

/// The same note an octave higher is twelve semitones further from the
/// root; notes of the same letter and accidental differ by twelve
/// semitones per octave.
pub proof fn lemma_octaves_are_twelve_semitones(a: Note, b: Note, root: Seq<char>, octave: u8)
    requires
        a.letter == b.letter,
        a.accidental == b.accidental,
    ensures
        (absolute_semitone_spec(b) - root_semitone(root, octave)) - (absolute_semitone_spec(a)
            - root_semitone(root, octave)) == 12 * (b.octave - a.octave),
{
}

} // verus!
