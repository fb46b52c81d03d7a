//! The rules a composition must meet beyond its JSON shape, and the
//! resolution of the default `rootNote` / `rootOctave` of samples from
//! `metadata.others`.

use vstd::prelude::*;

use crate::model::{Composition, KeyValue, Metadata, Pattern, Sample, Track};
use crate::note::{
    lemma_digits_end_bounds, read_digits,
    is_valid_note_name, note_result, parse_note, parse_note_name_spec, parse_note_spec,
    NoteFault, NoteParseError,
};
use crate::text::{chars_of, str_eq};

verus! {

#[derive(Debug)]
pub enum ValidationError {
    StepsNotMultipleOfFour { id: String, len: usize },
    InvalidNote { id: String, index: usize, note: String, source: NoteParseError },
    UnknownPatternReference { track_id: String, pattern_id: String },
    UnknownSampleReference { pattern_id: String, sample_id: String },
    InvalidRootNote { id: String, note: String },
    RootOctaveOutOfRange { id: String, octave: u8 },
    InvalidDefaultRootNote(String),
    InvalidDefaultRootOctave(String),
    UnsupportedFormatVersion { found: String },
    InvalidBpm,
    InvalidStepsPerBeat,
    DuplicateSampleId { id: String },
    DuplicatePatternId { id: String },
    DuplicateTrackId { id: String },
    NoSamples,
    NoPatterns,
    NoTracks,
}

/// What a validation error says, as plain values.
pub enum ValidationFault {
    StepsNotMultipleOfFour { id: Seq<char>, len: nat },
    InvalidNote { id: Seq<char>, index: nat, note: Seq<char>, source: NoteFault },
    UnknownPatternReference { track_id: Seq<char>, pattern_id: Seq<char> },
    UnknownSampleReference { pattern_id: Seq<char>, sample_id: Seq<char> },
    InvalidRootNote { id: Seq<char>, note: Seq<char> },
    RootOctaveOutOfRange { id: Seq<char>, octave: u8 },
    InvalidDefaultRootNote(Seq<char>),
    InvalidDefaultRootOctave(Seq<char>),
    UnsupportedFormatVersion { found: Seq<char> },
    InvalidBpm,
    InvalidStepsPerBeat,
    DuplicateSampleId { id: Seq<char> },
    DuplicatePatternId { id: Seq<char> },
    DuplicateTrackId { id: Seq<char> },
    NoSamples,
    NoPatterns,
    NoTracks,
}

impl View for ValidationError {
    type V = ValidationFault;

    open spec fn view(&self) -> ValidationFault {
        match self {
            ValidationError::StepsNotMultipleOfFour { id, len } => {
                ValidationFault::StepsNotMultipleOfFour { id: id@, len: *len as nat }
            },
            ValidationError::InvalidNote { id, index, note, source } => ValidationFault::InvalidNote {
                id: id@,
                index: *index as nat,
                note: note@,
                source: source@,
            },
            ValidationError::UnknownPatternReference { track_id, pattern_id } => {
                ValidationFault::UnknownPatternReference {
                    track_id: track_id@,
                    pattern_id: pattern_id@,
                }
            },
            ValidationError::UnknownSampleReference { pattern_id, sample_id } => {
                ValidationFault::UnknownSampleReference {
                    pattern_id: pattern_id@,
                    sample_id: sample_id@,
                }
            },
            ValidationError::InvalidRootNote { id, note } => ValidationFault::InvalidRootNote {
                id: id@,
                note: note@,
            },
            ValidationError::RootOctaveOutOfRange { id, octave } => {
                ValidationFault::RootOctaveOutOfRange { id: id@, octave: *octave }
            },
            ValidationError::InvalidDefaultRootNote(v) => ValidationFault::InvalidDefaultRootNote(v@),
            ValidationError::InvalidDefaultRootOctave(v) => ValidationFault::InvalidDefaultRootOctave(
                v@,
            ),
            ValidationError::UnsupportedFormatVersion { found } => {
                ValidationFault::UnsupportedFormatVersion { found: found@ }
            },
            ValidationError::InvalidBpm => ValidationFault::InvalidBpm,
            ValidationError::InvalidStepsPerBeat => ValidationFault::InvalidStepsPerBeat,
            ValidationError::DuplicateSampleId { id } => ValidationFault::DuplicateSampleId { id: id@ },
            ValidationError::DuplicatePatternId { id } => ValidationFault::DuplicatePatternId {
                id: id@,
            },
            ValidationError::DuplicateTrackId { id } => ValidationFault::DuplicateTrackId { id: id@ },
            ValidationError::NoSamples => ValidationFault::NoSamples,
            ValidationError::NoPatterns => ValidationFault::NoPatterns,
            ValidationError::NoTracks => ValidationFault::NoTracks,
        }
    }
}

/// A result with its error taken by its view.
pub open spec fn fault_of<T>(r: Result<T, ValidationError>) -> Result<T, ValidationFault> {
    match r {
        Ok(v) => Ok(v),
        Err(e) => Err(e@),
    }
}

/// The `.bm1` format versions this library understands.
pub const SUPPORTED_FORMAT_VERSION: &'static str = "1.0";

pub open spec fn supported_version(v: Seq<char>) -> bool {
    v == "1.0"@
}

pub open spec fn default_note_key() -> Seq<char> {
    "sampleDefaultNote"@
}

pub open spec fn default_octave_key() -> Seq<char> {
    "sampleDefaultOctave"@
}

// ----- defaults --------------------------------------------------------------

/// The value of the first entry of `others`, from `i` on, whose key is `key`.
pub open spec fn find_other_from(others: Seq<KeyValue>, key: Seq<char>, i: int) -> Option<
    Seq<char>,
>
    decreases others.len() - i,
{
    if i < 0 || i >= others.len() {
        None
    } else if others[i].key@ == key {
        Some(others[i].value@)
    } else {
        find_other_from(others, key, i + 1)
    }
}

/// The value of the first entry of `metadata.others` named `key`.
pub open spec fn find_other_spec(metadata: Metadata, key: Seq<char>) -> Option<Seq<char>> {
    find_other_from(metadata.others@, key, 0)
}

pub open spec fn all_digits(s: Seq<char>) -> bool {
    forall|k: int| 0 <= k < s.len() ==> crate::note::is_digit(#[trigger] s[k])
}

/// Text read as a byte, the way an unsigned integer is read from text: an
/// optional `+`, then one or more ASCII digits, with a value of at most 255.
pub open spec fn parse_u8_spec(s: Seq<char>) -> Option<u8> {
    let digits = if s.len() > 0 && s[0] == '+' { s.skip(1) } else { s };
    if digits.len() == 0 || !all_digits(digits) || crate::note::decimal_value(digits) > 255 {
        None
    } else {
        Some(crate::note::decimal_value(digits) as u8)
    }
}

/// The default root note and octave: from `metadata.others`
/// (`sampleDefaultNote`, `sampleDefaultOctave`), else `C` and 4.
pub open spec fn sample_defaults_spec(metadata: Metadata) -> Result<
    (Seq<char>, u8),
    ValidationFault,
> {
    let note = find_other_spec(metadata, default_note_key());
    let octave = find_other_spec(metadata, default_octave_key());
    if note is Some && parse_note_name_spec(note->0) is None {
        Err(ValidationFault::InvalidDefaultRootNote(note->0))
    } else if octave is Some && !(parse_u8_spec(octave->0) is Some && parse_u8_spec(
        octave->0,
    )->0 <= 8) {
        Err(ValidationFault::InvalidDefaultRootOctave(octave->0))
    } else {
        Ok(
            (
                if note is Some {
                    note->0
                } else {
                    "C"@
                },
                if octave is Some {
                    parse_u8_spec(octave->0)->0
                } else {
                    4u8
                },
            ),
        )
    }
}

// ----- the rules -------------------------------------------------------------

pub open spec fn some_sample_before(samples: Seq<Sample>, i: int, id: Seq<char>) -> bool {
    exists|j: int| 0 <= j < i && #[trigger] samples[j].id@ == id
}

pub open spec fn some_pattern_before(patterns: Seq<Pattern>, i: int, id: Seq<char>) -> bool {
    exists|j: int| 0 <= j < i && #[trigger] patterns[j].id@ == id
}

pub open spec fn some_track_before(tracks: Seq<Track>, i: int, id: Seq<char>) -> bool {
    exists|j: int| 0 <= j < i && #[trigger] tracks[j].id@ == id
}

/// What is wrong with sample `i`, given that the ones before it are fine.
pub open spec fn sample_fault(samples: Seq<Sample>, i: int) -> Option<ValidationFault> {
    let s = samples[i];
    if some_sample_before(samples, i, s.id@) {
        Some(ValidationFault::DuplicateSampleId { id: s.id@ })
    } else if s.root_note is Some && parse_note_name_spec(s.root_note->0@) is None {
        Some(ValidationFault::InvalidRootNote { id: s.id@, note: s.root_note->0@ })
    } else if s.root_octave is Some && s.root_octave->0 > 8 {
        Some(ValidationFault::RootOctaveOutOfRange { id: s.id@, octave: s.root_octave->0 })
    } else {
        None
    }
}

/// The fault of the first of the first `n` samples that has one.
pub open spec fn first_sample_fault(samples: Seq<Sample>, n: int) -> Option<ValidationFault>
    decreases n,
{
    if n <= 0 {
        None
    } else {
        match first_sample_fault(samples, n - 1) {
            Some(f) => Some(f),
            None => sample_fault(samples, n - 1),
        }
    }
}

/// The first of the first `n` steps that is a note that does not parse,
/// with its parse error.
pub open spec fn first_bad_step(steps: Seq<Option<String>>, n: int) -> Option<(nat, NoteFault)>
    decreases n,
{
    if n <= 0 {
        None
    } else {
        match first_bad_step(steps, n - 1) {
            Some(f) => Some(f),
            None => match steps[n - 1] {
                Some(raw) => match parse_note_spec(raw@) {
                    Err(e) => Some(((n - 1) as nat, e)),
                    Ok(_) => None,
                },
                None => None,
            },
        }
    }
}

/// What is wrong with pattern `i`, given that the ones before it are fine.
pub open spec fn pattern_fault(c: Composition, i: int) -> Option<ValidationFault> {
    let p = c.patterns@[i];
    if some_pattern_before(c.patterns@, i, p.id@) {
        Some(ValidationFault::DuplicatePatternId { id: p.id@ })
    } else if !some_sample_before(c.samples@, c.samples@.len() as int, p.sample@) {
        Some(ValidationFault::UnknownSampleReference { pattern_id: p.id@, sample_id: p.sample@ })
    } else if p.steps@.len() % 4 != 0 {
        Some(ValidationFault::StepsNotMultipleOfFour { id: p.id@, len: p.steps@.len() })
    } else {
        match first_bad_step(p.steps@, p.steps@.len() as int) {
            Some((index, source)) => Some(
                ValidationFault::InvalidNote {
                    id: p.id@,
                    index,
                    note: p.steps@[index as int]->0@,
                    source,
                },
            ),
            None => None,
        }
    }
}

pub open spec fn first_pattern_fault(c: Composition, n: int) -> Option<ValidationFault>
    decreases n,
{
    if n <= 0 {
        None
    } else {
        match first_pattern_fault(c, n - 1) {
            Some(f) => Some(f),
            None => pattern_fault(c, n - 1),
        }
    }
}

/// The first slot of the first `n` of `sequence` naming no pattern of `c`.
pub open spec fn first_unknown_slot(c: Composition, sequence: Seq<Option<String>>, n: int) -> Option<
    Seq<char>,
>
    decreases n,
{
    if n <= 0 {
        None
    } else {
        match first_unknown_slot(c, sequence, n - 1) {
            Some(p) => Some(p),
            None => match sequence[n - 1] {
                Some(id) => if some_pattern_before(c.patterns@, c.patterns@.len() as int, id@) {
                    None
                } else {
                    Some(id@)
                },
                None => None,
            },
        }
    }
}

/// What is wrong with track `i`, given that the ones before it are fine.
pub open spec fn track_fault(c: Composition, i: int) -> Option<ValidationFault> {
    let t = c.arrangement.tracks@[i];
    if some_track_before(c.arrangement.tracks@, i, t.id@) {
        Some(ValidationFault::DuplicateTrackId { id: t.id@ })
    } else {
        match first_unknown_slot(c, t.sequence@, t.sequence@.len() as int) {
            Some(p) => Some(
                ValidationFault::UnknownPatternReference { track_id: t.id@, pattern_id: p },
            ),
            None => None,
        }
    }
}

pub open spec fn first_track_fault(c: Composition, n: int) -> Option<ValidationFault>
    decreases n,
{
    if n <= 0 {
        None
    } else {
        match first_track_fault(c, n - 1) {
            Some(f) => Some(f),
            None => track_fault(c, n - 1),
        }
    }
}

/// The outcome of validating `c`: the rules are checked in this order, and
/// the first one broken is reported. Metadata first (version, bpm,
/// stepsPerBeat), then that every list is non-empty, then each sample (id
/// unique, root note and octave valid), each pattern (id unique, sample
/// known, length a multiple of 4, every note valid), and each track (id
/// unique, every pattern known).
pub open spec fn validate_spec(c: Composition) -> Result<(), ValidationFault> {
    if !supported_version(c.metadata.version@) {
        Err(ValidationFault::UnsupportedFormatVersion { found: c.metadata.version@ })
    } else if c.metadata.bpm == 0 {
        Err(ValidationFault::InvalidBpm)
    } else if c.metadata.steps_per_beat == 0 {
        Err(ValidationFault::InvalidStepsPerBeat)
    } else if c.samples@.len() == 0 {
        Err(ValidationFault::NoSamples)
    } else if c.patterns@.len() == 0 {
        Err(ValidationFault::NoPatterns)
    } else if c.arrangement.tracks@.len() == 0 {
        Err(ValidationFault::NoTracks)
    } else {
        match first_sample_fault(c.samples@, c.samples@.len() as int) {
            Some(f) => Err(f),
            None => match first_pattern_fault(c, c.patterns@.len() as int) {
                Some(f) => Err(f),
                None => match first_track_fault(c, c.arrangement.tracks@.len() as int) {
                    Some(f) => Err(f),
                    None => Ok(()),
                },
            },
        }
    }
}

/// `c` meets every rule.
pub open spec fn is_valid(c: Composition) -> bool {
    validate_spec(c) is Ok
}

// ----- executable --------------------------------------------------------------

/// The value of the first entry of `metadata.others` whose key is `key`.
pub fn find_other<'a>(metadata: &'a Metadata, key: &str) -> (r: Option<&'a str>)
    ensures
        match r {
            Some(v) => find_other_spec(*metadata, key@) == Some(v@),
            None => find_other_spec(*metadata, key@) is None,
        },
{
    let n = metadata.others.len();
    let mut i: usize = 0;
    while i < n
        invariant
            n == metadata.others@.len(),
            i <= n,
            find_other_from(metadata.others@, key@, 0) == find_other_from(
                metadata.others@,
                key@,
                i as int,
            ),
        decreases n - i,
    {
        if str_eq(metadata.others[i].key.as_str(), key) {
            return Some(metadata.others[i].value.as_str());
        }
        i = i + 1;
    }
    None
}

/// Reads a byte from text: an optional `+` and one or more ASCII digits.
pub fn parse_u8(text: &str) -> (r: Option<u8>)
    ensures
        r == parse_u8_spec(text@),
{
    let chars = chars_of(text);
    let n = chars.len();
    let start: usize = if n > 0 && chars[0] == '+' { 1 } else { 0 };
    let ghost digits = if text@.len() > 0 && text@[0] == '+' { text@.skip(1) } else { text@ };
    assert(digits =~= chars@.subrange(start as int, n as int));
    let (end, value) = read_digits(&chars, start);
    proof {
        lemma_digits_end_bounds(chars@, start as int);
    }
    if end != n {
        assert(!crate::note::is_digit(digits[end - start]));
        return None;
    }
    if end == start {
        return None;
    }
    assert(all_digits(digits));
    value
}


/// `new` is `old` with its missing root note and octave filled in.
pub open spec fn sample_with_defaults(old: Sample, new: Sample, note: Seq<char>, octave: u8) -> bool {
    &&& new.id == old.id
    &&& new.file == old.file
    &&& match old.root_note {
        Some(n) => new.root_note == Some(n),
        None => new.root_note is Some && new.root_note->0@ == note,
    }
    &&& new.root_octave == Some(
        match old.root_octave {
            Some(o) => o,
            None => octave,
        },
    )
}

/// Resolves the default root note and octave for samples that give none:
/// `metadata.others` (`sampleDefaultNote`, `sampleDefaultOctave`) first,
/// else `C` and 4.
pub fn resolve_sample_defaults(metadata: &Metadata) -> (r: Result<(String, u8), ValidationError>)
    ensures
        match r {
            Ok((note, octave)) => sample_defaults_spec(*metadata) == Ok::<
                (Seq<char>, u8),
                ValidationFault,
            >((note@, octave)),
            Err(e) => sample_defaults_spec(*metadata) == Err::<(Seq<char>, u8), ValidationFault>(
                e@,
            ),
        },
{
    let note_key = "sampleDefaultNote";
    let octave_key = "sampleDefaultOctave";
    proof {
        reveal_strlit("sampleDefaultNote");
        reveal_strlit("sampleDefaultOctave");
        reveal_strlit("C");
    }
    let default_note = match find_other(metadata, note_key) {
        Some(value) => {
            if !is_valid_note_name(value) {
                return Err(ValidationError::InvalidDefaultRootNote(String::from_str(value)));
            }
            String::from_str(value)
        },
        None => String::from_str("C"),
    };
    let default_octave = match find_other(metadata, octave_key) {
        Some(value) => match parse_u8(value) {
            Some(o) if o <= 8 => o,
            _ => {
                return Err(ValidationError::InvalidDefaultRootOctave(String::from_str(value)));
            },
        },
        None => 4,
    };
    Ok((default_note, default_octave))
}

/// Fills `root_note` / `root_octave` on every sample that omits them, with
/// the defaults of `resolve_sample_defaults`; nothing changes when those
/// defaults are invalid.
pub fn apply_sample_defaults(composition: &mut Composition) -> (r: Result<(), ValidationError>)
    ensures
        match sample_defaults_spec(old(composition).metadata) {
            Err(f) => r is Err && r->Err_0@ == f && *final(composition) == *old(composition),
            Ok((note, octave)) => {
                &&& r is Ok
                &&& final(composition).metadata == old(composition).metadata
                &&& final(composition).patterns == old(composition).patterns
                &&& final(composition).arrangement == old(composition).arrangement
                &&& final(composition).samples@.len() == old(composition).samples@.len()
                &&& forall|i: int|
                    0 <= i < old(composition).samples@.len() ==> sample_with_defaults(
                        #[trigger] old(composition).samples@[i],
                        final(composition).samples@[i],
                        note,
                        octave,
                    )
            },
        },
{
    let (default_note, default_octave) = match resolve_sample_defaults(&composition.metadata) {
        Ok(d) => d,
        Err(e) => {
            return Err(e);
        },
    };
    let n = composition.samples.len();
    let mut i: usize = 0;
    while i < n
        invariant
            n == old(composition).samples@.len(),
            i <= n,
            composition.samples@.len() == n,
            composition.metadata == old(composition).metadata,
            composition.patterns == old(composition).patterns,
            composition.arrangement == old(composition).arrangement,
            forall|k: int|
                0 <= k < i ==> sample_with_defaults(
                    #[trigger] old(composition).samples@[k],
                    composition.samples@[k],
                    default_note@,
                    default_octave,
                ),
            forall|k: int|
                i <= k < n ==> #[trigger] composition.samples@[k] == old(composition).samples@[k],
        decreases n - i,
    {
        if composition.samples[i].root_note.is_none() {
            composition.samples[i].root_note = Some(default_note.clone());
        }
        if composition.samples[i].root_octave.is_none() {
            composition.samples[i].root_octave = Some(default_octave);
        }
        i = i + 1;
    }
    Ok(())
}

// ----- lemmas on the first fault -----------------------------------------------

proof fn lemma_first_sample_fault_stays(samples: Seq<Sample>, i: int, n: int)
    requires
        0 <= i <= n,
        first_sample_fault(samples, i) is Some,
    ensures
        first_sample_fault(samples, n) == first_sample_fault(samples, i),
    decreases n - i,
{
    if n > i {
        lemma_first_sample_fault_stays(samples, i, n - 1);
    }
}

proof fn lemma_first_pattern_fault_stays(c: Composition, i: int, n: int)
    requires
        0 <= i <= n,
        first_pattern_fault(c, i) is Some,
    ensures
        first_pattern_fault(c, n) == first_pattern_fault(c, i),
    decreases n - i,
{
    if n > i {
        lemma_first_pattern_fault_stays(c, i, n - 1);
    }
}

proof fn lemma_first_track_fault_stays(c: Composition, i: int, n: int)
    requires
        0 <= i <= n,
        first_track_fault(c, i) is Some,
    ensures
        first_track_fault(c, n) == first_track_fault(c, i),
    decreases n - i,
{
    if n > i {
        lemma_first_track_fault_stays(c, i, n - 1);
    }
}

proof fn lemma_first_bad_step_stays(steps: Seq<Option<String>>, i: int, n: int)
    requires
        0 <= i <= n,
        first_bad_step(steps, i) is Some,
    ensures
        first_bad_step(steps, n) == first_bad_step(steps, i),
    decreases n - i,
{
    if n > i {
        lemma_first_bad_step_stays(steps, i, n - 1);
    }
}

proof fn lemma_first_unknown_slot_stays(c: Composition, seq: Seq<Option<String>>, i: int, n: int)
    requires
        0 <= i <= n,
        first_unknown_slot(c, seq, i) is Some,
    ensures
        first_unknown_slot(c, seq, n) == first_unknown_slot(c, seq, i),
    decreases n - i,
{
    if n > i {
        lemma_first_unknown_slot_stays(c, seq, i, n - 1);
    }
}

// ----- id lookups ----------------------------------------------------------------

/// Whether one of the first `i` samples has id `id`.
fn sample_id_before(samples: &Vec<Sample>, i: usize, id: &String) -> (r: bool)
    requires
        i <= samples@.len(),
    ensures
        r == some_sample_before(samples@, i as int, id@),
{
    let mut j: usize = 0;
    while j < i
        invariant
            i <= samples@.len(),
            j <= i,
            forall|k: int| 0 <= k < j ==> samples@[k].id@ != id@,
        decreases i - j,
    {
        if samples[j].id == *id {
            return true;
        }
        j = j + 1;
    }
    false
}

/// Whether one of the first `i` patterns has id `id`.
fn pattern_id_before(patterns: &Vec<Pattern>, i: usize, id: &String) -> (r: bool)
    requires
        i <= patterns@.len(),
    ensures
        r == some_pattern_before(patterns@, i as int, id@),
{
    let mut j: usize = 0;
    while j < i
        invariant
            i <= patterns@.len(),
            j <= i,
            forall|k: int| 0 <= k < j ==> patterns@[k].id@ != id@,
        decreases i - j,
    {
        if patterns[j].id == *id {
            return true;
        }
        j = j + 1;
    }
    false
}

/// Whether one of the first `i` tracks has id `id`.
fn track_id_before(tracks: &Vec<Track>, i: usize, id: &String) -> (r: bool)
    requires
        i <= tracks@.len(),
    ensures
        r == some_track_before(tracks@, i as int, id@),
{
    let mut j: usize = 0;
    while j < i
        invariant
            i <= tracks@.len(),
            j <= i,
            forall|k: int| 0 <= k < j ==> tracks@[k].id@ != id@,
        decreases i - j,
    {
        if tracks[j].id == *id {
            return true;
        }
        j = j + 1;
    }
    false
}

// ----- the checks ------------------------------------------------------------------

fn check_sample(samples: &Vec<Sample>, i: usize) -> (r: Result<(), ValidationError>)
    requires
        i < samples@.len(),
    ensures
        match sample_fault(samples@, i as int) {
            Some(f) => r is Err && r->Err_0@ == f,
            None => r is Ok,
        },
{
    let sample = &samples[i];
    if sample_id_before(samples, i, &sample.id) {
        return Err(ValidationError::DuplicateSampleId { id: sample.id.clone() });
    }
    if let Some(root_note) = &sample.root_note {
        if !is_valid_note_name(root_note.as_str()) {
            return Err(
                ValidationError::InvalidRootNote { id: sample.id.clone(), note: root_note.clone() },
            );
        }
    }
    if let Some(root_octave) = sample.root_octave {
        if root_octave > 8 {
            return Err(
                ValidationError::RootOctaveOutOfRange { id: sample.id.clone(), octave: root_octave },
            );
        }
    }
    Ok(())
}

#[verifier::loop_isolation(false)]
fn check_pattern(c: &Composition, i: usize) -> (r: Result<(), ValidationError>)
    requires
        i < c.patterns@.len(),
    ensures
        match pattern_fault(*c, i as int) {
            Some(f) => r is Err && r->Err_0@ == f,
            None => r is Ok,
        },
{
    let pattern = &c.patterns[i];
    if pattern_id_before(&c.patterns, i, &pattern.id) {
        return Err(ValidationError::DuplicatePatternId { id: pattern.id.clone() });
    }
    if !sample_id_before(&c.samples, c.samples.len(), &pattern.sample) {
        return Err(
            ValidationError::UnknownSampleReference {
                pattern_id: pattern.id.clone(),
                sample_id: pattern.sample.clone(),
            },
        );
    }
    if pattern.steps.len() % 4 != 0 {
        return Err(
            ValidationError::StepsNotMultipleOfFour {
                id: pattern.id.clone(),
                len: pattern.steps.len(),
            },
        );
    }
    let n = pattern.steps.len();
    let mut index: usize = 0;
    while index < n
        invariant
            n == pattern.steps@.len(),
            index <= n,
            first_bad_step(pattern.steps@, index as int) is None,
        decreases n - index,
    {
        if let Some(raw) = &pattern.steps[index] {
            match parse_note(raw.as_str()) {
                Err(source) => {
                    proof {
                        lemma_first_bad_step_stays(pattern.steps@, index + 1, n as int);
                    }
                    return Err(
                        ValidationError::InvalidNote {
                            id: pattern.id.clone(),
                            index,
                            note: raw.clone(),
                            source,
                        },
                    );
                },
                Ok(_) => {},
            }
        }
        index = index + 1;
    }
    Ok(())
}

#[verifier::loop_isolation(false)]
fn check_track(c: &Composition, i: usize) -> (r: Result<(), ValidationError>)
    requires
        i < c.arrangement.tracks@.len(),
    ensures
        match track_fault(*c, i as int) {
            Some(f) => r is Err && r->Err_0@ == f,
            None => r is Ok,
        },
{
    let track = &c.arrangement.tracks[i];
    if track_id_before(&c.arrangement.tracks, i, &track.id) {
        return Err(ValidationError::DuplicateTrackId { id: track.id.clone() });
    }
    let n = track.sequence.len();
    let mut k: usize = 0;
    while k < n
        invariant
            n == track.sequence@.len(),
            k <= n,
            first_unknown_slot(*c, track.sequence@, k as int) is None,
        decreases n - k,
    {
        if let Some(pattern_id) = &track.sequence[k] {
            if !pattern_id_before(&c.patterns, c.patterns.len(), pattern_id) {
                proof {
                    lemma_first_unknown_slot_stays(*c, track.sequence@, k + 1, n as int);
                }
                return Err(
                    ValidationError::UnknownPatternReference {
                        track_id: track.id.clone(),
                        pattern_id: pattern_id.clone(),
                    },
                );
            }
        }
        k = k + 1;
    }
    Ok(())
}

/// Checks every rule of the format on `composition`, in a fixed order, and
/// reports the first one broken.
#[verifier::loop_isolation(false)]
pub fn validate(composition: &Composition) -> (r: Result<(), ValidationError>)
    ensures
        fault_of(r) == validate_spec(*composition),
{
    let c = composition;
    proof {
        reveal_strlit("1.0");
    }
    if !str_eq(c.metadata.version.as_str(), SUPPORTED_FORMAT_VERSION) {
        return Err(ValidationError::UnsupportedFormatVersion { found: c.metadata.version.clone() });
    }
    if c.metadata.bpm == 0 {
        return Err(ValidationError::InvalidBpm);
    }
    if c.metadata.steps_per_beat == 0 {
        return Err(ValidationError::InvalidStepsPerBeat);
    }
    if c.samples.len() == 0 {
        return Err(ValidationError::NoSamples);
    }
    if c.patterns.len() == 0 {
        return Err(ValidationError::NoPatterns);
    }
    if c.arrangement.tracks.len() == 0 {
        return Err(ValidationError::NoTracks);
    }
    let ns = c.samples.len();
    let mut i: usize = 0;
    while i < ns
        invariant
            ns == c.samples@.len(),
            i <= ns,
            first_sample_fault(c.samples@, i as int) is None,
        decreases ns - i,
    {
        match check_sample(&c.samples, i) {
            Err(e) => {
                proof {
                    lemma_first_sample_fault_stays(c.samples@, i + 1, ns as int);
                }
                return Err(e);
            },
            Ok(()) => {},
        }
        i = i + 1;
    }
    let np = c.patterns.len();
    let mut i: usize = 0;
    while i < np
        invariant
            np == c.patterns@.len(),
            i <= np,
            first_pattern_fault(*c, i as int) is None,
        decreases np - i,
    {
        match check_pattern(c, i) {
            Err(e) => {
                proof {
                    lemma_first_pattern_fault_stays(*c, i + 1, np as int);
                }
                return Err(e);
            },
            Ok(()) => {},
        }
        i = i + 1;
    }
    let nt = c.arrangement.tracks.len();
    let mut i: usize = 0;
    while i < nt
        invariant
            nt == c.arrangement.tracks@.len(),
            i <= nt,
            first_track_fault(*c, i as int) is None,
        decreases nt - i,
    {
        match check_track(c, i) {
            Err(e) => {
                proof {
                    lemma_first_track_fault_stays(*c, i + 1, nt as int);
                }
                return Err(e);
            },
            Ok(()) => {},
        }
        i = i + 1;
    }
    Ok(())
}

// ----- laws of validation ------------------------------------------------------

proof fn lemma_no_pattern_fault_upto(c: Composition, n: int)
    requires
        0 <= n <= c.patterns@.len(),
        first_pattern_fault(c, n) is None,
    ensures
        forall|i: int| 0 <= i < n ==> (#[trigger] c.patterns@[i]).steps@.len() % 4 == 0,
    decreases n,
{
    if n > 0 {
        lemma_no_pattern_fault_upto(c, n - 1);
        assert(pattern_fault(c, n - 1) is None);
    }
}

proof fn lemma_pattern_fault_from(c: Composition, n: int)
    requires
        0 <= n <= c.patterns@.len(),
        first_pattern_fault(c, n) is Some,
    ensures
        exists|i: int| 0 <= i < n && #[trigger] pattern_fault(c, i) == first_pattern_fault(c, n),
    decreases n,
{
    if first_pattern_fault(c, n - 1) is Some {
        lemma_pattern_fault_from(c, n - 1);
        let i = choose|i: int| 0 <= i < n - 1 && #[trigger] pattern_fault(c, i) == first_pattern_fault(c, n - 1);
        assert(pattern_fault(c, i) == first_pattern_fault(c, n));
    } else {
        assert(pattern_fault(c, n - 1) == first_pattern_fault(c, n));
    }
}

proof fn lemma_sample_faults_are_about_samples(samples: Seq<Sample>, n: int)
    ensures
        !(first_sample_fault(samples, n) matches Some(ValidationFault::StepsNotMultipleOfFour { .. })),
    decreases n,
{
    if n > 0 {
        lemma_sample_faults_are_about_samples(samples, n - 1);
    }
}

proof fn lemma_track_faults_are_about_tracks(c: Composition, n: int)
    ensures
        !(first_track_fault(c, n) matches Some(ValidationFault::StepsNotMultipleOfFour { .. })),
    decreases n,
{
    if n > 0 {
        lemma_track_faults_are_about_tracks(c, n - 1);
    }
}

/// A composition is accepted only if every pattern's step count is a
/// multiple of 4: a pattern with any other count makes validation fail.
pub proof fn lemma_step_counts_are_multiples_of_four(c: Composition, i: int)
    requires
        0 <= i < c.patterns@.len(),
        c.patterns@[i].steps@.len() % 4 != 0,
    ensures
        validate_spec(c) is Err,
{
    if validate_spec(c) is Ok {
        lemma_no_pattern_fault_upto(c, c.patterns@.len() as int);
        assert(c.patterns@[i].steps@.len() % 4 == 0);
    }
}

/// When validation reports a step count that is not a multiple of 4, some
/// pattern of that id has exactly that many steps, and that count is
/// indeed not a multiple of 4.
pub proof fn lemma_reported_step_count_is_real(c: Composition, id: Seq<char>, len: nat)
    requires
        validate_spec(c) == Err::<(), ValidationFault>(ValidationFault::StepsNotMultipleOfFour { id, len }),
    ensures
        len % 4 != 0,
        exists|i: int|
            0 <= i < c.patterns@.len() && (#[trigger] c.patterns@[i]).id@ == id && c.patterns@[i].steps@.len() == len,
{
    lemma_sample_faults_are_about_samples(c.samples@, c.samples@.len() as int);
    lemma_track_faults_are_about_tracks(c, c.arrangement.tracks@.len() as int);
    let n = c.patterns@.len() as int;
    assert(first_pattern_fault(c, n) is Some);
    lemma_pattern_fault_from(c, n);
    let i = choose|i: int| 0 <= i < n && #[trigger] pattern_fault(c, i) == first_pattern_fault(c, n);
    assert(c.patterns@[i].id@ == id);
}


} // verus!
