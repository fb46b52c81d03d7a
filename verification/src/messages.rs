//! The messages the errors of the format and of loading show to users.

use vstd::prelude::*;
use vstd::string::*;

use crate::composition::FormatError;
use crate::note::{decimal, decimal_string, NoteFault, NoteParseError};
use crate::project::ProjectError;
use crate::text::push_char;
use crate::validate::{ValidationError, ValidationFault};

verus! {

/// The message of a note parse error.
pub open spec fn note_error_text(f: NoteFault) -> Seq<char> {
    match f {
        NoteFault::InvalidFormat(s) => "invalid note format: '"@ + s
            + "' (expected NOTE[#|b]OCTAVE, e.g. 'C4', 'C#4', 'Db3')"@,
        NoteFault::InvalidLetter(c) => "invalid note letter '"@ + seq![c] + "' (must be A-G)"@,
        NoteFault::OctaveOutOfRange(o) => "octave out of range (0-8): "@ + decimal(o as nat),
    }
}

/// The message of a validation error.
pub open spec fn validation_text(f: ValidationFault) -> Seq<char> {
    match f {
        ValidationFault::StepsNotMultipleOfFour { id, len } => "pattern '"@ + id
            + "': steps length must be a multiple of 4 (got "@ + decimal(len) + ")"@,
        ValidationFault::InvalidNote { id, index, note, source } => "pattern '"@ + id
            + "': invalid note '"@ + note + "' at steps["@ + decimal(index) + "]: "@
            + note_error_text(source),
        ValidationFault::UnknownPatternReference { track_id, pattern_id } => "track '"@ + track_id
            + "': reference to unknown pattern '"@ + pattern_id + "'"@,
        ValidationFault::UnknownSampleReference { pattern_id, sample_id } => "pattern '"@
            + pattern_id + "': reference to unknown sample '"@ + sample_id + "'"@,
        ValidationFault::InvalidRootNote { id, note } => "sample '"@ + id + "': invalid rootNote '"@
            + note + "'"@,
        ValidationFault::RootOctaveOutOfRange { id, octave } => "sample '"@ + id
            + "': rootOctave out of range (0-8), got "@ + decimal(octave as nat),
        ValidationFault::InvalidDefaultRootNote(v) => "metadata.others['sampleDefaultNote'] is invalid: '"@
            + v + "'"@,
        ValidationFault::InvalidDefaultRootOctave(v) => "metadata.others['sampleDefaultOctave'] is invalid: '"@
            + v + "' (must be an integer 0-8)"@,
        ValidationFault::UnsupportedFormatVersion { found } => "unsupported metadata.version '"@
            + found + "' (this build of bm supports: 1.0)"@,
        ValidationFault::InvalidBpm => "metadata.bpm must be greater than 0"@,
        ValidationFault::InvalidStepsPerBeat => "metadata.stepsPerBeat must be greater than 0"@,
        ValidationFault::DuplicateSampleId { id } => "two samples share the same id '"@ + id + "'"@,
        ValidationFault::DuplicatePatternId { id } => "two patterns share the same id '"@ + id + "'"@,
        ValidationFault::DuplicateTrackId { id } => "two tracks share the same id '"@ + id + "'"@,
        ValidationFault::NoSamples => "the composition has no samples"@,
        ValidationFault::NoPatterns => "the composition has no patterns"@,
        ValidationFault::NoTracks => "the arrangement has no tracks"@,
    }
}

/// The message of a format error.
pub open spec fn format_text(e: FormatError) -> Seq<char> {
    match e {
        FormatError::Parse(m) => "the JSON does not have the expected shape: "@ + m@,
        FormatError::Validation(v) => "invalid composition: "@ + validation_text(v@),
    }
}

/// The message of a loading error.
pub open spec fn project_text(e: ProjectError) -> Seq<char> {
    match e {
        ProjectError::Io { path, message } => "could not read file '"@ + path@ + "': "@ + message@,
        ProjectError::Format(f) => format_text(f),
    }
}

/// Appends `n` in decimal.
fn push_decimal(out: &mut String, n: u64)
    ensures
        final(out)@ == old(out)@ + decimal(n as nat),
{
    let digits = decimal_string(n);
    out.append(digits.as_str());
}

/// `a`, `b` and `c` one after the other.
fn three(a: &str, b: &str, c: &str) -> (r: String)
    ensures
        r@ == a@ + b@ + c@,
{
    let mut out = String::from_str(a);
    out.append(b);
    out.append(c);
    out
}

impl NoteParseError {
    /// The message of this error.
    pub fn to_string(&self) -> (r: String)
        ensures
            r@ == note_error_text(self@),
    {
        match self {
            NoteParseError::InvalidFormat(s) => three(
                "invalid note format: '",
                s.as_str(),
                "' (expected NOTE[#|b]OCTAVE, e.g. 'C4', 'C#4', 'Db3')",
            ),
            NoteParseError::InvalidLetter(c) => {
                let mut out = String::from_str("invalid note letter '");
                push_char(&mut out, *c);
                out.append("' (must be A-G)");
                out
            },
            NoteParseError::OctaveOutOfRange(o) => {
                let mut out = String::from_str("octave out of range (0-8): ");
                push_decimal(&mut out, *o as u64);
                out
            },
        }
    }
}

impl ValidationError {
    /// The message of this error.
    pub fn to_string(&self) -> (r: String)
        ensures
            r@ == validation_text(self@),
    {
        match self {
            ValidationError::StepsNotMultipleOfFour { id, len } => {
                let mut out = three("pattern '", id.as_str(), "': steps length must be a multiple of 4 (got ");
                push_decimal(&mut out, *len as u64);
                out.append(")");
                out
            },
            ValidationError::InvalidNote { id, index, note, source } => {
                let mut out = three("pattern '", id.as_str(), "': invalid note '");
                out.append(note.as_str());
                out.append("' at steps[");
                push_decimal(&mut out, *index as u64);
                out.append("]: ");
                let why = source.to_string();
                out.append(why.as_str());
                out
            },
            ValidationError::UnknownPatternReference { track_id, pattern_id } => {
                let mut out = three("track '", track_id.as_str(), "': reference to unknown pattern '");
                out.append(pattern_id.as_str());
                out.append("'");
                out
            },
            ValidationError::UnknownSampleReference { pattern_id, sample_id } => {
                let mut out = three("pattern '", pattern_id.as_str(), "': reference to unknown sample '");
                out.append(sample_id.as_str());
                out.append("'");
                out
            },
            ValidationError::InvalidRootNote { id, note } => {
                let mut out = three("sample '", id.as_str(), "': invalid rootNote '");
                out.append(note.as_str());
                out.append("'");
                out
            },
            ValidationError::RootOctaveOutOfRange { id, octave } => {
                let mut out = three("sample '", id.as_str(), "': rootOctave out of range (0-8), got ");
                push_decimal(&mut out, *octave as u64);
                out
            },
            ValidationError::InvalidDefaultRootNote(v) => three(
                "metadata.others['sampleDefaultNote'] is invalid: '",
                v.as_str(),
                "'",
            ),
            ValidationError::InvalidDefaultRootOctave(v) => three(
                "metadata.others['sampleDefaultOctave'] is invalid: '",
                v.as_str(),
                "' (must be an integer 0-8)",
            ),
            ValidationError::UnsupportedFormatVersion { found } => three(
                "unsupported metadata.version '",
                found.as_str(),
                "' (this build of bm supports: 1.0)",
            ),
            ValidationError::InvalidBpm => String::from_str("metadata.bpm must be greater than 0"),
            ValidationError::InvalidStepsPerBeat => String::from_str(
                "metadata.stepsPerBeat must be greater than 0",
            ),
            ValidationError::DuplicateSampleId { id } => three(
                "two samples share the same id '",
                id.as_str(),
                "'",
            ),
            ValidationError::DuplicatePatternId { id } => three(
                "two patterns share the same id '",
                id.as_str(),
                "'",
            ),
            ValidationError::DuplicateTrackId { id } => three(
                "two tracks share the same id '",
                id.as_str(),
                "'",
            ),
            ValidationError::NoSamples => String::from_str("the composition has no samples"),
            ValidationError::NoPatterns => String::from_str("the composition has no patterns"),
            ValidationError::NoTracks => String::from_str("the arrangement has no tracks"),
        }
    }
}

impl FormatError {
    /// The message of this error.
    pub fn to_string(&self) -> (r: String)
        ensures
            r@ == format_text(*self),
    {
        match self {
            FormatError::Parse(m) => {
                let mut out = String::from_str("the JSON does not have the expected shape: ");
                out.append(m.as_str());
                out
            },
            FormatError::Validation(v) => {
                let mut out = String::from_str("invalid composition: ");
                let why = v.to_string();
                out.append(why.as_str());
                out
            },
        }
    }
}

impl ProjectError {
    /// The message of this error.
    pub fn to_string(&self) -> (r: String)
        ensures
            r@ == project_text(*self),
    {
        match self {
            ProjectError::Io { path, message } => {
                let mut out = three("could not read file '", path.as_str(), "': ");
                out.append(message.as_str());
                out
            },
            ProjectError::Format(f) => f.to_string(),
        }
    }
}

} // verus!
