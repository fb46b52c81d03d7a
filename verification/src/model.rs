//! The composition model, as read from a `.bm1` file.
//!
//! - `metadata`: title, version, tempo and generic key/value fields.
//! - `samples[]`: an audio file and the note it was recorded at.
//! - `patterns[]`: a sample played along a sequence of notes or silences.
//! - `arrangement.tracks[]`: parallel tracks, each chaining patterns by id.

use vstd::prelude::*;

verus! {

/// A full composition.
#[derive(Debug, Clone)]
pub struct Composition {
    pub metadata: Metadata,
    pub samples: Vec<Sample>,
    pub patterns: Vec<Pattern>,
    pub arrangement: Arrangement,
}

#[derive(Debug, Clone)]
pub struct Metadata {
    pub version: String,
    pub title: String,
    pub bpm: u32,
    /// How many pattern steps fit in one beat (4 when the file omits it).
    pub steps_per_beat: u32,
    pub others: Vec<KeyValue>,
}

#[derive(Debug, Clone)]
pub struct KeyValue {
    pub key: String,
    pub value: String,
}

/// An audio sample and the note it was recorded at (root note and octave),
/// from which every other note is pitch-shifted.
#[derive(Debug, Clone)]
pub struct Sample {
    pub id: String,
    /// Path of the `.wav`, absolute or relative to the `.bm1`.
    pub file: String,
    /// Note name without octave, e.g. `C`, `C#`, `Eb`.
    pub root_note: Option<String>,
    pub root_octave: Option<u8>,
}

/// A reusable chunk: a sample (by id) played along `steps`, where each step
/// is a full note or `None` (silence).
#[derive(Debug, Clone)]
pub struct Pattern {
    pub id: String,
    pub sample: String,
    pub steps: Vec<Option<String>>,
}

#[derive(Debug, Clone)]
pub struct Arrangement {
    pub tracks: Vec<Track>,
}

/// A track chaining patterns by id; `None` is a gap at that position.
#[derive(Debug, Clone)]
pub struct Track {
    pub id: String,
    pub sequence: Vec<Option<String>>,
}

/// Steps per beat when a file does not say: each step is a sixteenth note.
pub fn default_steps_per_beat() -> (r: u32)
    ensures
        r == 4,
{
    4
}

} // verus!
