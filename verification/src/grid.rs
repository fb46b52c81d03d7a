//! The pattern grid: a piano-roll model of a pattern's steps.
//!
//! [`PatternGrid`] says which pitches a pattern uses and at which steps they
//! sound, both compactly (only the pitches used, highest first) and over
//! the full chromatic range (every semitone from the start of the lowest
//! octave used to the end of the highest one, highest first).

use vstd::prelude::*;

use crate::note::{
    absolute_semitone_spec, decimal, decimal_string, is_note_letter, parse_note, parse_note_spec,
    semitone_offset_spec, Note,
};
use crate::text::push_char;

verus! {

/// One sounding step of a pattern.
#[derive(Debug, Clone, Copy, PartialEq, Eq, Structural)]
pub struct GridNote {
    pub step: usize,
    /// Index of the step's row (0 = highest pitch).
    pub row: usize,
}

/// One row of the chromatic grid: a semitone.
#[derive(Debug, Clone, PartialEq, Eq)]
pub struct PitchRow {
    /// `C4`, `C#4`, ...: sharps, the accidental before the octave.
    pub label: String,
    /// A black key of the piano.
    pub black: bool,
}

/// A pattern reduced to what a grid needs.
#[derive(Debug, Clone, PartialEq, Eq)]
pub struct PatternGrid {
    pub len_steps: usize,
    /// The distinct pitches used, highest first, each labeled by its first
    /// spelling in the pattern (enharmonic spellings share a row).
    pub rows: Vec<String>,
    pub notes: Vec<GridNote>,
    /// The chromatic range, highest first: from the start of the lowest
    /// octave used to the end of the highest one. Empty for a silent pattern.
    pub chromatic: Vec<PitchRow>,
    /// The sounding steps again, with `row` indexing `chromatic`.
    pub chromatic_notes: Vec<GridNote>,
}

// ----- the model -----------------------------------------------------------------

/// The sounding steps among the first `n` of `steps`, as (step, absolute
/// semitone): the steps that hold a note that parses.
pub open spec fn sounding_upto(steps: Seq<Option<String>>, n: int) -> Seq<(nat, int)>
    decreases n,
{
    if n <= 0 {
        seq![]
    } else {
        let rest = sounding_upto(steps, n - 1);
        match steps[n - 1] {
            Some(raw) => match parse_note_spec(raw@) {
                Ok(note) => rest.push(((n - 1) as nat, absolute_semitone_spec(note))),
                Err(_) => rest,
            },
            None => rest,
        }
    }
}

pub open spec fn sounding(steps: Seq<Option<String>>) -> Seq<(nat, int)> {
    sounding_upto(steps, steps.len() as int)
}

/// Some sounding step of `snd` has pitch `p`.
pub open spec fn pitch_used(snd: Seq<(nat, int)>, p: int) -> bool {
    exists|k: int| 0 <= k < snd.len() && (#[trigger] snd[k]).1 == p
}

/// The step of the first entry of `snd` with pitch `p`.
pub open spec fn first_step_with(snd: Seq<(nat, int)>, p: int) -> nat
    decreases snd.len(),
{
    if snd.len() == 0 {
        0
    } else if pitch_used(snd.drop_last(), p) {
        first_step_with(snd.drop_last(), p)
    } else {
        snd.last().0
    }
}

/// The pitch a step's text stands for.
pub open spec fn label_pitch(label: Seq<char>) -> int {
    absolute_semitone_spec(parse_note_spec(label)->Ok_0)
}

pub open spec fn pitch_name(i: int) -> Seq<char> {
    if i == 0 {
        "C"@
    } else if i == 1 {
        "C#"@
    } else if i == 2 {
        "D"@
    } else if i == 3 {
        "D#"@
    } else if i == 4 {
        "E"@
    } else if i == 5 {
        "F"@
    } else if i == 6 {
        "F#"@
    } else if i == 7 {
        "G"@
    } else if i == 8 {
        "G#"@
    } else if i == 9 {
        "A"@
    } else if i == 10 {
        "A#"@
    } else {
        "B"@
    }
}

/// The black keys are the sharps.
pub open spec fn is_black(i: int) -> bool {
    i == 1 || i == 3 || i == 6 || i == 8 || i == 10
}

/// The chromatic row of semitone `s`: its name (with sharps) and octave.
pub open spec fn pitch_row_spec(s: int) -> (Seq<char>, bool) {
    (pitch_name(s % 12) + decimal((s / 12) as nat), is_black(s % 12))
}

/// `g` is the grid of `steps`.
pub open spec fn grid_of(steps: Seq<Option<String>>, g: PatternGrid) -> bool {
    let snd = sounding(steps);
    &&& g.len_steps == steps.len()
    // the rows: the pitches used, highest first, each labeled by its first spelling
    &&& forall|r: int|
        0 <= r < g.rows@.len() ==> pitch_used(snd, label_pitch(#[trigger] g.rows@[r]@))
            && g.rows@[r]@ == steps[first_step_with(snd, label_pitch(g.rows@[r]@)) as int]->0@
    &&& forall|r1: int, r2: int|
        0 <= r1 < r2 < g.rows@.len() ==> label_pitch(#[trigger] g.rows@[r1]@) > label_pitch(
            #[trigger] g.rows@[r2]@,
        )
    // the notes: each sounding step, on the row of its pitch
    &&& g.notes@.len() == snd.len()
    &&& forall|i: int|
        0 <= i < snd.len() ==> (#[trigger] g.notes@[i]).step == snd[i].0 && g.notes@[i].row
            < g.rows@.len() && label_pitch(g.rows@[g.notes@[i].row as int]@) == snd[i].1
    // the chromatic range
    &&& g.chromatic_notes@.len() == snd.len()
    &&& if snd.len() == 0 {
        g.chromatic@.len() == 0
    } else {
        let high = label_pitch(g.rows@[0]@);
        let low = label_pitch(g.rows@[g.rows@.len() - 1]@);
        let top = (high / 12) * 12 + 11;
        let bottom = (low / 12) * 12;
        &&& g.chromatic@.len() == top - bottom + 1
        &&& forall|i: int|
            0 <= i < g.chromatic@.len() ==> ((#[trigger] g.chromatic@[i]).label@, g.chromatic@[i].black)
                == pitch_row_spec(top - i)
        &&& forall|i: int|
            0 <= i < snd.len() ==> (#[trigger] g.chromatic_notes@[i]).step == snd[i].0
                && g.chromatic_notes@[i].row == top - snd[i].1
    }
}

// ----- lemmas ------------------------------------------------------------------------

/// A parsed note's absolute semitone lies within the nine octaves.
proof fn lemma_semitone_range(note: Note)
    requires
        note.octave <= 8,
    ensures
        0 <= absolute_semitone_spec(note) <= 107,
{
}

/// Every sounding step holds a note whose pitch is the one recorded, steps
/// come in increasing order, and pitches lie within the nine octaves.
proof fn lemma_sounding(steps: Seq<Option<String>>, n: int)
    requires
        0 <= n <= steps.len(),
    ensures
        forall|k: int|
            0 <= k < sounding_upto(steps, n).len() ==> {
                let e = #[trigger] sounding_upto(steps, n)[k];
                &&& e.0 < n
                &&& steps[e.0 as int] is Some
                &&& parse_note_spec(steps[e.0 as int]->0@) is Ok
                &&& label_pitch(steps[e.0 as int]->0@) == e.1
                &&& 0 <= e.1 <= 107
            },
    decreases n,
{
    if n > 0 {
        lemma_sounding(steps, n - 1);
        match steps[n - 1] {
            Some(raw) => match parse_note_spec(raw@) {
                Ok(note) => {
                    crate::note::lemma_parse_note_octave(raw@);
                    lemma_semitone_range(note);
                },
                Err(_) => {},
            },
            None => {},
        }
    }
}

/// The first step with a used pitch is one of the steps with that pitch.
proof fn lemma_first_step_with(snd: Seq<(nat, int)>, p: int)
    requires
        pitch_used(snd, p),
    ensures
        exists|k: int| 0 <= k < snd.len() && (#[trigger] snd[k]).1 == p && snd[k].0 == first_step_with(snd, p),
    decreases snd.len(),
{
    if pitch_used(snd.drop_last(), p) {
        lemma_first_step_with(snd.drop_last(), p);
        let k = choose|k: int| 0 <= k < snd.drop_last().len() && (#[trigger] snd.drop_last()[k]).1 == p && snd.drop_last()[k].0 == first_step_with(snd.drop_last(), p);
        assert(snd[k] == snd.drop_last()[k]);
    } else {
        let k = choose|k: int| 0 <= k < snd.len() && (#[trigger] snd[k]).1 == p;
        if k < snd.len() - 1 {
            assert(snd.drop_last()[k] == snd[k]);
        }
        assert(snd[snd.len() - 1].1 == p);
    }
}


// ----- executable ----------------------------------------------------------------------

pub open spec fn snd_view(v: Seq<(usize, i32)>) -> Seq<(nat, int)> {
    v.map_values(|e: (usize, i32)| (e.0 as nat, e.1 as int))
}

/// The name of pitch class `i` (with sharps) appended to `out`.
fn push_pitch_name(out: &mut String, i: i32)
    requires
        0 <= i < 12,
    ensures
        final(out)@ == old(out)@ + pitch_name(i as int),
{
    proof {
        reveal_strlit("C");
        reveal_strlit("C#");
        reveal_strlit("D");
        reveal_strlit("D#");
        reveal_strlit("E");
        reveal_strlit("F");
        reveal_strlit("F#");
        reveal_strlit("G");
        reveal_strlit("G#");
        reveal_strlit("A");
        reveal_strlit("A#");
        reveal_strlit("B");
    }
    let letter = if i <= 1 {
        'C'
    } else if i <= 3 {
        'D'
    } else if i == 4 {
        'E'
    } else if i <= 6 {
        'F'
    } else if i <= 8 {
        'G'
    } else if i <= 10 {
        'A'
    } else {
        'B'
    };
    let ghost before = out@;
    push_char(out, letter);
    if i == 1 || i == 3 || i == 6 || i == 8 || i == 10 {
        push_char(out, '#');
    }
    assert(out@ =~= before + pitch_name(i as int));
}

/// The chromatic row of semitone `s`.
fn pitch_row(s: i32) -> (r: PitchRow)
    requires
        0 <= s <= 107,
    ensures
        (r.label@, r.black) == pitch_row_spec(s as int),
{
    let i = s % 12;
    let mut label = String::new();
    push_pitch_name(&mut label, i);
    let octave = decimal_string((s / 12) as u64);
    label.append(octave.as_str());
    PitchRow { label, black: i == 1 || i == 3 || i == 6 || i == 8 || i == 10 }
}

/// The sounding steps of `steps`: (step, absolute semitone).
fn sounding_steps(steps: &[Option<String>]) -> (v: Vec<(usize, i32)>)
    ensures
        snd_view(v@) == sounding(steps@),
{
    let n = steps.len();
    let mut v: Vec<(usize, i32)> = Vec::new();
    let mut k: usize = 0;
    while k < n
        invariant
            n == steps@.len(),
            k <= n,
            snd_view(v@) == sounding_upto(steps@, k as int),
        decreases n - k,
    {
        if let Some(raw) = &steps[k] {
            match parse_note(raw.as_str()) {
                Ok(note) => {
                    proof {
                        crate::note::lemma_parse_note_octave(raw@);
                        lemma_semitone_range(note);
                    }
                    let semitone = note.absolute_semitone();
                    v.push((k, semitone));
                    assert(snd_view(v@) =~= sounding_upto(steps@, k + 1));
                },
                Err(_) => {},
            }
        }
        k = k + 1;
    }
    v
}

/// Index of the first entry of `rows` not above `p` (`rows.len()` if all are).
fn insertion_point(rows: &Vec<i32>, p: i32) -> (j: usize)
    ensures
        j <= rows@.len(),
        forall|r: int| 0 <= r < j ==> rows@[r] > p,
        j < rows@.len() ==> rows@[j as int] <= p,
{
    let mut j: usize = 0;
    while j < rows.len()
        invariant
            j <= rows@.len(),
            forall|r: int| 0 <= r < j ==> rows@[r] > p,
        decreases rows.len() - j,
    {
        if rows[j] <= p {
            return j;
        }
        j = j + 1;
    }
    j
}

/// The distinct pitches of the sounding steps, highest first, each with its
/// first spelling.
#[verifier::loop_isolation(false)]
#[verifier::rlimit(60)]
fn distinct_pitches(steps: &[Option<String>], heard: &Vec<(usize, i32)>) -> (r: (Vec<i32>, Vec<String>))
    requires
        snd_view(heard@) == sounding(steps@),
    ensures
        r.0@.len() == r.1@.len(),
        forall|r1: int, r2: int| 0 <= r1 < r2 < r.0@.len() ==> #[trigger] r.0@[r1] > #[trigger] r.0@[r2],
        forall|i: int| 0 <= i < r.0@.len() ==> pitch_used(sounding(steps@), #[trigger] r.0@[i] as int),
        forall|i: int| 0 <= i < sounding(steps@).len() ==> r.0@.contains(#[trigger] sounding(steps@)[i].1 as i32),
        forall|i: int| 0 <= i < r.0@.len() ==> (#[trigger] r.1@[i])@ == steps@[first_step_with(sounding(steps@), r.0@[i] as int) as int]->0@,
{
    let ghost snd = sounding(steps@);
    let ns = heard.len();
    proof {
        lemma_sounding(steps@, steps@.len() as int);
    }
    let mut rows_p: Vec<i32> = Vec::new();
    let mut rows: Vec<String> = Vec::new();
    let mut k: usize = 0;
    while k < ns
        invariant
            k <= ns,
            rows@.len() == rows_p@.len(),
            forall|r1: int, r2: int| 0 <= r1 < r2 < rows_p@.len() ==> #[trigger] rows_p@[r1] > #[trigger] rows_p@[r2],
            forall|r: int| 0 <= r < rows_p@.len() ==> pitch_used(snd.take(k as int), #[trigger] rows_p@[r] as int),
            forall|i: int| 0 <= i < k ==> rows_p@.contains(#[trigger] snd[i].1 as i32),
            forall|r: int| 0 <= r < rows_p@.len() ==> (#[trigger] rows@[r])@ == steps@[first_step_with(snd.take(k as int), rows_p@[r] as int) as int]->0@,
        decreases ns - k,
    {
        let (step, p) = heard[k];
        let j = insertion_point(&rows_p, p);
        let ghost prev = snd.take(k as int);
        assert(snd.take(k + 1).drop_last() =~= prev);
        assert(snd.take(k + 1)[k as int] == snd[k as int]);
        if j < rows_p.len() && rows_p[j] == p {
            assert(pitch_used(prev, p as int));
            assert forall|r: int| 0 <= r < rows_p@.len() implies pitch_used(snd.take(k + 1), #[trigger] rows_p@[r] as int) by {
                let w = choose|w: int| 0 <= w < prev.len() && (#[trigger] prev[w]).1 == rows_p@[r] as int;
                assert(snd.take(k + 1)[w] == prev[w]);
            }
        } else {
            proof {
                if pitch_used(prev, p as int) {
                    let w = choose|w: int| 0 <= w < prev.len() && (#[trigger] prev[w]).1 == p as int;
                    assert(rows_p@.contains(snd[w].1 as i32));
                    assert(false);
                }
            }
            let label = match &steps[step] {
                Some(raw) => raw.clone(),
                None => {
                    proof { assert(false); }
                    String::new()
                },
            };
            let ghost old_p = rows_p@;
            let ghost old_l = rows@;
            rows_p.insert(j, p);
            rows.insert(j, label);
            assert forall|r: int| 0 <= r < rows_p@.len() implies pitch_used(snd.take(k + 1), #[trigger] rows_p@[r] as int) by {
                if r == j {
                    assert(snd.take(k + 1)[k as int].1 == p as int);
                } else {
                    let q = if r < j { old_p[r] } else { old_p[r - 1] };
                    assert(rows_p@[r] == q);
                    let w = choose|w: int| 0 <= w < prev.len() && (#[trigger] prev[w]).1 == q as int;
                    assert(snd.take(k + 1)[w] == prev[w]);
                }
            }
            assert forall|r: int| 0 <= r < rows_p@.len() implies (#[trigger] rows@[r])@ == steps@[first_step_with(snd.take(k + 1), rows_p@[r] as int) as int]->0@ by {
                if r == j {
                } else if r < j {
                    assert(rows_p@[r] == old_p[r] && rows@[r] == old_l[r]);
                } else {
                    assert(rows_p@[r] == old_p[r - 1] && rows@[r] == old_l[r - 1]);
                }
            }
            assert forall|i: int| 0 <= i < k implies rows_p@.contains(#[trigger] snd[i].1 as i32) by {
                let r = choose|r: int| 0 <= r < old_p.len() && old_p[r] == snd[i].1 as i32;
                if r < j {
                    assert(rows_p@[r] == old_p[r]);
                } else {
                    assert(rows_p@[r + 1] == old_p[r]);
                }
            }
            assert(rows_p@[j as int] == p);
        }
        k = k + 1;
    }
    assert(snd.take(ns as int) =~= snd);
    (rows_p, rows)
}

/// Each heard step, on the row of its pitch in `rows_p`.
#[verifier::loop_isolation(false)]
fn place_notes(heard: &Vec<(usize, i32)>, rows_p: &Vec<i32>) -> (notes: Vec<GridNote>)
    requires
        forall|r1: int, r2: int| 0 <= r1 < r2 < rows_p@.len() ==> #[trigger] rows_p@[r1] > #[trigger] rows_p@[r2],
        forall|i: int| 0 <= i < heard@.len() ==> rows_p@.contains(#[trigger] heard@[i].1),
    ensures
        notes@.len() == heard@.len(),
        forall|a: int| 0 <= a < heard@.len() ==> (#[trigger] notes@[a]).step == heard@[a].0 && notes@[a].row < rows_p@.len() && rows_p@[notes@[a].row as int] == heard@[a].1,
{
    let ns = heard.len();
    let mut notes: Vec<GridNote> = Vec::new();
    let mut i: usize = 0;
    while i < ns
        invariant
            i <= ns,
            notes@.len() == i,
            forall|a: int| 0 <= a < i ==> (#[trigger] notes@[a]).step == heard@[a].0 && notes@[a].row < rows_p@.len() && rows_p@[notes@[a].row as int] == heard@[a].1,
        decreases ns - i,
    {
        let (step, p) = heard[i];
        let j = insertion_point(rows_p, p);
        proof {
            assert(rows_p@.contains(heard@[i as int].1));
            let r = choose|r: int| 0 <= r < rows_p@.len() && rows_p@[r] == heard@[i as int].1;
            if r > j {
                assert(rows_p@[j as int] > rows_p@[r]);
            }
        }
        notes.push(GridNote { step, row: j });
        i = i + 1;
    }
    notes
}

/// The chromatic rows from `top` down to `bottom`.
fn chromatic_rows(top: i32, bottom: i32) -> (v: Vec<PitchRow>)
    requires
        0 <= bottom <= top + 1,
        top <= 107,
    ensures
        v@.len() == top - bottom + 1,
        forall|a: int| 0 <= a < v@.len() ==> ((#[trigger] v@[a]).label@, v@[a].black) == pitch_row_spec(top - a),
{
    let mut chromatic: Vec<PitchRow> = Vec::new();
    let mut s = top;
    while s >= bottom
        invariant
            0 <= bottom <= top + 1,
            top <= 107,
            bottom - 1 <= s <= top,
            chromatic@.len() == top - s,
            forall|a: int| 0 <= a < chromatic@.len() ==> ((#[trigger] chromatic@[a]).label@, chromatic@[a].black) == pitch_row_spec(top - a),
        decreases s - bottom + 1,
    {
        chromatic.push(pitch_row(s));
        s = s - 1;
    }
    chromatic
}

impl PatternGrid {
    /// The grid of a pattern's steps. Steps that are not valid notes are
    /// left out (validation rejects them before a pattern gets here).
    pub fn from_steps(steps: &[Option<String>]) -> (g: Self)
        ensures
            grid_of(steps@, g),
    {
        let ghost snd = sounding(steps@);
        let heard = sounding_steps(steps);
        let ns = heard.len();
        proof {
            lemma_sounding(steps@, steps@.len() as int);
        }
        let (rows_p, rows) = distinct_pitches(steps, &heard);
        proof {
            assert forall|r: int| 0 <= r < rows_p@.len() implies label_pitch((#[trigger] rows@[r])@) == rows_p@[r] as int by {
                lemma_first_step_with(snd, rows_p@[r] as int);
            }
            assert forall|i: int| 0 <= i < heard@.len() implies rows_p@.contains(#[trigger] heard@[i].1) by {
                assert(snd[i].1 as i32 == heard@[i].1);
            }
        }
        let notes = place_notes(&heard, &rows_p);
        let mut chromatic: Vec<PitchRow> = Vec::new();
        let mut chromatic_notes: Vec<GridNote> = Vec::new();
        if ns > 0 {
            assert(rows_p@.contains(heard@[0].1));
            let high = rows_p[0];
            let low = rows_p[rows_p.len() - 1];
            proof {
                assert forall|k: int| 0 <= k < ns implies (#[trigger] heard@[k]).1 <= high by {
                    assert(rows_p@.contains(heard@[k].1));
                    let r = choose|r: int| 0 <= r < rows_p@.len() && rows_p@[r] == heard@[k].1;
                    if r > 0 {
                        assert(rows_p@[0] > rows_p@[r]);
                    }
                    assert(snd[k].1 == heard@[k].1);
                }
                assert(pitch_used(snd, high as int));
                assert(pitch_used(snd, low as int));
            }
            let top = (high / 12) * 12 + 11;
            let bottom = (low / 12) * 12;
            assert(top >= high);
            chromatic = chromatic_rows(top, bottom);
            let mut i: usize = 0;
            while i < ns
                invariant
                    ns == heard@.len(),
                    snd_view(heard@) == snd,
                    forall|k: int| 0 <= k < snd.len() ==> 0 <= (#[trigger] snd[k]).1 <= 107,
                    0 <= top <= 107,
                    forall|k: int| 0 <= k < ns ==> (#[trigger] heard@[k]).1 <= top,
                    i <= ns,
                    chromatic_notes@.len() == i,
                    forall|a: int| 0 <= a < i ==> (#[trigger] chromatic_notes@[a]).step == snd[a].0 && chromatic_notes@[a].row == top - snd[a].1,
                decreases ns - i,
            {
                let (step, p) = heard[i];
                assert(snd[i as int].1 == heard@[i as int].1);
                assert(snd[i as int].0 == heard@[i as int].0);
                chromatic_notes.push(GridNote { step, row: (top - p) as usize });
                i = i + 1;
            }
        }
        PatternGrid { len_steps: steps.len(), rows, notes, chromatic, chromatic_notes }
    }
}
} // verus!
