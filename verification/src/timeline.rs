//! The arrangement as a grid of columns, and each track flattened into a
//! timeline of steps.
//!
//! - Each position `i` of a track's `sequence` is a column shared by all
//!   tracks.
//! - A column lasts as many steps as the longest pattern placed in it by
//!   any track; a column where every track is silent lasts 4 steps.
//! - A track whose `sequence` is shorter than the number of columns loops
//!   over its own sequence until it covers them all.
//!
//! Every track's timeline has the same length, `total_steps`; `None` is
//! silence. Each track also lists its clips: the pattern blocks a user
//! interface draws, including the ones that exist only by looping.

use vstd::prelude::*;

use crate::model::{Composition, Pattern, Track};
use crate::note::{note_result, parse_note, parse_note_spec, Note};
use crate::validate::{
    first_bad_step, first_pattern_fault, first_track_fault, first_unknown_slot, is_valid,
    pattern_fault, some_pattern_before, track_fault, validate_spec,
};

verus! {

/// Length of a column in which no track plays anything.
pub const FALLBACK_COLUMN_STEPS: usize = 4;

/// A step that sounds: which sample, at which note.
#[derive(Debug, Clone, PartialEq)]
pub struct ResolvedStep {
    pub sample_id: String,
    pub note: Note,
}

/// One column of the shared grid.
#[derive(Debug, Clone, Copy, PartialEq, Eq, Structural)]
pub struct Column {
    /// First step of the column on the global timeline.
    pub start_step: usize,
    /// Duration of the column in steps.
    pub len_steps: usize,
}

/// A pattern placed on a track: one block of the drawn arrangement.
#[derive(Debug, Clone, PartialEq, Eq)]
pub struct Clip {
    pub pattern_id: String,
    /// The column the clip sits in.
    pub column: usize,
    /// First step of the clip on the global timeline.
    pub start_step: usize,
    /// Length of the pattern (it can be shorter than its column).
    pub len_steps: usize,
    /// The slot exists only because the track's sequence looped.
    pub is_repeat: bool,
}

#[derive(Debug, Clone)]
pub struct ResolvedTrack {
    pub id: String,
    /// One entry per step of the timeline; `None` is silence.
    pub steps: Vec<Option<ResolvedStep>>,
    /// The track's pattern blocks, in timeline order; gaps give none.
    pub clips: Vec<Clip>,
}

#[derive(Debug, Clone)]
pub struct ResolvedArrangement {
    pub tracks: Vec<ResolvedTrack>,
    /// The shared grid, one entry per column.
    pub columns: Vec<Column>,
    pub total_steps: usize,
}

/// A clip as plain values.
pub struct ClipSpec {
    pub pattern_id: Seq<char>,
    pub column: nat,
    pub start_step: nat,
    pub len_steps: nat,
    pub is_repeat: bool,
}

impl View for Clip {
    type V = ClipSpec;

    open spec fn view(&self) -> ClipSpec {
        ClipSpec {
            pattern_id: self.pattern_id@,
            column: self.column as nat,
            start_step: self.start_step as nat,
            len_steps: self.len_steps as nat,
            is_repeat: self.is_repeat,
        }
    }
}

// ----- the grid model ----------------------------------------------------------

/// Index of the first pattern, from `i` on, whose id is `id`
/// (`patterns.len()` when there is none).
pub open spec fn pattern_index_from(patterns: Seq<Pattern>, id: Seq<char>, i: int) -> int
    decreases patterns.len() - i,
{
    if i < 0 || i >= patterns.len() {
        patterns.len() as int
    } else if patterns[i].id@ == id {
        i
    } else {
        pattern_index_from(patterns, id, i + 1)
    }
}

/// The pattern named `id`.
pub open spec fn pattern_named(c: Composition, id: Seq<char>) -> Pattern {
    c.patterns@[pattern_index_from(c.patterns@, id, 0)]
}

/// What track `t` has in column `col`: its sequence, looped.
pub open spec fn slot(t: Track, col: int) -> Option<String> {
    if t.sequence@.len() == 0 {
        None
    } else {
        t.sequence@[col % (t.sequence@.len() as int)]
    }
}

/// How many steps track `t` asks for in column `col`.
pub open spec fn slot_len(c: Composition, t: Track, col: int) -> nat {
    match slot(t, col) {
        Some(id) => pattern_named(c, id@).steps@.len(),
        None => 0,
    }
}

/// The most steps asked for in column `col` by the first `n` tracks.
pub open spec fn max_slot_len(c: Composition, col: int, n: int) -> nat
    decreases n,
{
    if n <= 0 {
        0
    } else {
        let rest = max_slot_len(c, col, n - 1);
        let here = slot_len(c, c.arrangement.tracks@[n - 1], col);
        if here > rest {
            here
        } else {
            rest
        }
    }
}

/// Number of columns: the length of the longest sequence among the first
/// `n` tracks.
pub open spec fn columns_upto(c: Composition, n: int) -> nat
    decreases n,
{
    if n <= 0 {
        0
    } else {
        let rest = columns_upto(c, n - 1);
        let here = c.arrangement.tracks@[n - 1].sequence@.len();
        if here > rest {
            here
        } else {
            rest
        }
    }
}

pub open spec fn column_count(c: Composition) -> nat {
    columns_upto(c, c.arrangement.tracks@.len() as int)
}

/// Duration of column `col`: the longest pattern any track places there, or
/// 4 steps when every track is silent there.
pub open spec fn column_len(c: Composition, col: int) -> nat {
    let m = max_slot_len(c, col, c.arrangement.tracks@.len() as int);
    if m == 0 {
        4
    } else {
        m
    }
}

/// First step of column `col`: the durations of the columns before it.
pub open spec fn column_start(c: Composition, col: int) -> nat
    decreases col,
{
    if col <= 0 {
        0
    } else {
        column_start(c, col - 1) + column_len(c, col - 1)
    }
}

/// Length of every track's timeline.
pub open spec fn total_steps(c: Composition) -> nat {
    column_start(c, column_count(c) as int)
}

/// What track `t` plays at step `k` of column `col`: the `k`-th step of the
/// pattern in its slot, if the pattern is that long and the step is a note.
pub open spec fn step_at(c: Composition, t: Track, col: int, k: int) -> Option<(Seq<char>, Note)> {
    match slot(t, col) {
        Some(id) => {
            let p = pattern_named(c, id@);
            if 0 <= k < p.steps@.len() && p.steps@[k] is Some {
                Some((p.sample@, parse_note_spec(p.steps@[k]->0@)->Ok_0))
            } else {
                None
            }
        },
        None => None,
    }
}

/// A resolved step, as plain values.
pub open spec fn step_view(s: Option<ResolvedStep>) -> Option<(Seq<char>, Note)> {
    match s {
        Some(r) => Some((r.sample_id@, r.note)),
        None => None,
    }
}

/// The clip of track `t` in column `col`, if the slot holds a pattern.
pub open spec fn clip_at(c: Composition, t: Track, col: int) -> Seq<ClipSpec> {
    match slot(t, col) {
        Some(id) => seq![
            ClipSpec {
                pattern_id: id@,
                column: col as nat,
                start_step: column_start(c, col),
                len_steps: pattern_named(c, id@).steps@.len(),
                is_repeat: col >= t.sequence@.len(),
            },
        ],
        None => seq![],
    }
}

/// The clips of track `t` in the first `n` columns, in order.
pub open spec fn clips_upto(c: Composition, t: Track, n: int) -> Seq<ClipSpec>
    decreases n,
{
    if n <= 0 {
        seq![]
    } else {
        clips_upto(c, t, n - 1) + clip_at(c, t, n - 1)
    }
}

/// `track` is track `t` of `c` laid out on the grid.
pub open spec fn track_resolved(c: Composition, t: Track, track: ResolvedTrack) -> bool {
    &&& track.id == t.id
    &&& track.steps@.len() == total_steps(c)
    &&& forall|col: int, k: int|
        0 <= col < column_count(c) && 0 <= k < column_len(c, col) ==> step_view(
            #[trigger] track.steps@[column_start(c, col) + k],
        ) == step_at(c, t, col, k)
    &&& track.clips@.map_values(|clip: Clip| clip@) == clips_upto(c, t, column_count(c) as int)
}

// ----- lemmas ----------------------------------------------------------------------

proof fn lemma_pattern_index(patterns: Seq<Pattern>, id: Seq<char>, i: int)
    requires
        0 <= i <= patterns.len(),
        exists|j: int| i <= j < patterns.len() && #[trigger] patterns[j].id@ == id,
    ensures
        i <= pattern_index_from(patterns, id, i) < patterns.len(),
        patterns[pattern_index_from(patterns, id, i)].id@ == id,
    decreases patterns.len() - i,
{
    if patterns[i].id@ != id {
        assert(exists|j: int| i + 1 <= j < patterns.len() && #[trigger] patterns[j].id@ == id);
        lemma_pattern_index(patterns, id, i + 1);
    }
}

proof fn lemma_no_pattern_fault(c: Composition, n: int, i: int)
    requires
        0 <= i < n,
        first_pattern_fault(c, n) is None,
    ensures
        pattern_fault(c, i) is None,
    decreases n,
{
    if i < n - 1 {
        lemma_no_pattern_fault(c, n - 1, i);
    }
}

proof fn lemma_no_track_fault(c: Composition, n: int, i: int)
    requires
        0 <= i < n,
        first_track_fault(c, n) is None,
    ensures
        track_fault(c, i) is None,
    decreases n,
{
    if i < n - 1 {
        lemma_no_track_fault(c, n - 1, i);
    }
}

proof fn lemma_no_bad_step(steps: Seq<Option<String>>, n: int, k: int)
    requires
        0 <= k < n,
        first_bad_step(steps, n) is None,
    ensures
        steps[k] is Some ==> parse_note_spec(steps[k]->0@) is Ok,
    decreases n,
{
    if k < n - 1 {
        lemma_no_bad_step(steps, n - 1, k);
    }
}

proof fn lemma_no_unknown_slot(c: Composition, seq: Seq<Option<String>>, n: int, k: int)
    requires
        0 <= k < n,
        first_unknown_slot(c, seq, n) is None,
    ensures
        seq[k] is Some ==> some_pattern_before(c.patterns@, c.patterns@.len() as int, seq[k]->0@),
    decreases n,
{
    if k < n - 1 {
        lemma_no_unknown_slot(c, seq, n - 1, k);
    }
}

/// In a valid composition, every pattern a track names exists, and every
/// step of every pattern is a note that parses.
proof fn lemma_valid_slot(c: Composition, ti: int, col: int)
    requires
        is_valid(c),
        0 <= ti < c.arrangement.tracks@.len(),
        slot(c.arrangement.tracks@[ti], col) is Some,
    ensures
        ({
            let id = slot(c.arrangement.tracks@[ti], col)->0@;
            let pi = pattern_index_from(c.patterns@, id, 0);
            &&& 0 <= pi < c.patterns@.len()
            &&& c.patterns@[pi].id@ == id
            &&& forall|k: int|
                0 <= k < c.patterns@[pi].steps@.len() && (#[trigger] c.patterns@[pi].steps@[k]) is Some
                    ==> parse_note_spec(c.patterns@[pi].steps@[k]->0@) is Ok
        }),
{
    let t = c.arrangement.tracks@[ti];
    let len = t.sequence@.len() as int;
    let k = col % len;
    lemma_no_track_fault(c, c.arrangement.tracks@.len() as int, ti);
    lemma_no_unknown_slot(c, t.sequence@, len, k);
    let id = slot(t, col)->0@;
    lemma_pattern_index(c.patterns@, id, 0);
    let pi = pattern_index_from(c.patterns@, id, 0);
    lemma_no_pattern_fault(c, c.patterns@.len() as int, pi);
    assert forall|k: int|
        0 <= k < c.patterns@[pi].steps@.len() && (#[trigger] c.patterns@[pi].steps@[k]) is Some
            implies parse_note_spec(c.patterns@[pi].steps@[k]->0@) is Ok by {
        lemma_no_bad_step(c.patterns@[pi].steps@, c.patterns@[pi].steps@.len() as int, k);
    }
}

proof fn lemma_column_start_monotone(c: Composition, a: int, b: int)
    requires
        0 <= a <= b,
    ensures
        column_start(c, a) <= column_start(c, b),
    decreases b - a,
{
    if a < b {
        lemma_column_start_monotone(c, a, b - 1);
    }
}


// ----- executable ------------------------------------------------------------------

/// Index of the first pattern named `id` (`patterns.len()` if none is).
fn find_pattern(patterns: &Vec<Pattern>, id: &String) -> (r: usize)
    ensures
        r == pattern_index_from(patterns@, id@, 0),
{
    let n = patterns.len();
    let mut i: usize = 0;
    while i < n
        invariant
            n == patterns@.len(),
            i <= n,
            pattern_index_from(patterns@, id@, 0) == pattern_index_from(patterns@, id@, i as int),
        decreases n - i,
    {
        if patterns[i].id == *id {
            return i;
        }
        i = i + 1;
    }
    n
}

/// The number of columns: the longest sequence.
fn count_columns(c: &Composition) -> (r: usize)
    ensures
        r == column_count(*c),
{
    let tracks = &c.arrangement.tracks;
    let n = tracks.len();
    let mut best: usize = 0;
    let mut i: usize = 0;
    while i < n
        invariant
            n == tracks@.len(),
            tracks == c.arrangement.tracks,
            i <= n,
            best == columns_upto(*c, i as int),
        decreases n - i,
    {
        let here = tracks[i].sequence.len();
        if here > best {
            best = here;
        }
        i = i + 1;
    }
    best
}

/// How many steps track `ti` asks for in column `col`.
fn exec_slot_len(c: &Composition, ti: usize, col: usize) -> (r: usize)
    requires
        is_valid(*c),
        ti < c.arrangement.tracks@.len(),
    ensures
        r == slot_len(*c, c.arrangement.tracks@[ti as int], col as int),
{
    let track = &c.arrangement.tracks[ti];
    let len = track.sequence.len();
    if len == 0 {
        return 0;
    }
    match &track.sequence[col % len] {
        Some(id) => {
            proof {
                lemma_valid_slot(*c, ti as int, col as int);
            }
            let pi = find_pattern(&c.patterns, id);
            c.patterns[pi].steps.len()
        },
        None => 0,
    }
}

/// The duration of each column, from the longest pattern placed in it by
/// any track (with looping), or 4 when every track is silent there.
fn compute_column_lengths(c: &Composition, max_columns: usize) -> (v: Vec<usize>)
    requires
        is_valid(*c),
        max_columns == column_count(*c),
    ensures
        v@.len() == max_columns,
        forall|col: int| 0 <= col < max_columns ==> #[trigger] v@[col] == column_len(*c, col),
{
    let mut v: Vec<usize> = Vec::new();
    let mut col: usize = 0;
    while col < max_columns
        invariant
            col <= max_columns,
            v@.len() == col,
            forall|k: int| 0 <= k < col ==> #[trigger] v@[k] == 0,
        decreases max_columns - col,
    {
        v.push(0);
        col = col + 1;
    }
    let nt = c.arrangement.tracks.len();
    let mut ti: usize = 0;
    while ti < nt
        invariant
            is_valid(*c),
            nt == c.arrangement.tracks@.len(),
            ti <= nt,
            v@.len() == max_columns,
            forall|k: int| 0 <= k < max_columns ==> #[trigger] v@[k] == max_slot_len(*c, k, ti as int),
        decreases nt - ti,
    {
        let mut col: usize = 0;
        while col < max_columns
            invariant
                is_valid(*c),
                nt == c.arrangement.tracks@.len(),
                ti < nt,
                col <= max_columns,
                v@.len() == max_columns,
                forall|k: int|
                    0 <= k < col ==> #[trigger] v@[k] == max_slot_len(*c, k, ti + 1),
                forall|k: int|
                    col <= k < max_columns ==> #[trigger] v@[k] == max_slot_len(*c, k, ti as int),
            decreases max_columns - col,
        {
            let here = exec_slot_len(c, ti, col);
            if here > v[col] {
                v.set(col, here);
            }
            col = col + 1;
        }
        ti = ti + 1;
    }
    let mut col: usize = 0;
    while col < max_columns
        invariant
            col <= max_columns,
            v@.len() == max_columns,
            forall|k: int| 0 <= k < col ==> #[trigger] v@[k] == column_len(*c, k),
            forall|k: int|
                col <= k < max_columns ==> #[trigger] v@[k] == max_slot_len(
                    *c,
                    k,
                    c.arrangement.tracks@.len() as int,
                ),
        decreases max_columns - col,
    {
        if v[col] == 0 {
            v.set(col, FALLBACK_COLUMN_STEPS);
        }
        col = col + 1;
    }
    v
}

/// Step positions of earlier columns come before later columns.
proof fn lemma_position_before(c: Composition, a: int, k: int, b: int)
    requires
        0 <= a < b,
        0 <= k < column_len(c, a),
    ensures
        column_start(c, a) + k < column_start(c, b),
{
    lemma_column_start_monotone(c, a + 1, b);
}

/// The steps of the first `col` columns of track `t` are laid out in `steps`.
pub open spec fn steps_laid_out(c: Composition, t: Track, steps: Seq<Option<ResolvedStep>>, col: int) -> bool {
    forall|a: int, k: int|
        0 <= a < col && 0 <= k < column_len(c, a) ==> step_view(
            #[trigger] steps[column_start(c, a) + k],
        ) == step_at(c, t, a, k)
}

/// Lays out track `ti` on the grid `columns`: its steps, with looping and
/// silence up to each column's duration, and its clips.
#[verifier::loop_isolation(false)]
fn resolve_track(c: &Composition, ti: usize, columns: &Vec<Column>, total: usize) -> (r: (
    Vec<Option<ResolvedStep>>,
    Vec<Clip>,
))
    requires
        is_valid(*c),
        ti < c.arrangement.tracks@.len(),
        total == total_steps(*c),
        columns@.len() == column_count(*c),
        forall|col: int|
            0 <= col < columns@.len() ==> (#[trigger] columns@[col]).start_step == column_start(
                *c,
                col,
            ) && columns@[col].len_steps == column_len(*c, col),
    ensures
        r.0@.len() == total_steps(*c),
        steps_laid_out(*c, c.arrangement.tracks@[ti as int], r.0@, column_count(*c) as int),
        r.1@.map_values(|clip: Clip| clip@) == clips_upto(
            *c,
            c.arrangement.tracks@[ti as int],
            column_count(*c) as int,
        ),
{
    let track = &c.arrangement.tracks[ti];
    let ghost t = c.arrangement.tracks@[ti as int];
    let ncols = columns.len();
    let len = track.sequence.len();
    let mut steps: Vec<Option<ResolvedStep>> = Vec::new();
    let mut clips: Vec<Clip> = Vec::new();
    let mut col: usize = 0;
    while col < ncols
        invariant
            col <= ncols,
            steps@.len() == column_start(*c, col as int),
            steps_laid_out(*c, t, steps@, col as int),
            clips@.map_values(|clip: Clip| clip@) == clips_upto(*c, t, col as int),
        decreases ncols - col,
    {
        let ghost before = steps@;
        let ghost start = column_start(*c, col as int);
        let width = columns[col].len_steps;
        proof {
            lemma_column_start_monotone(*c, col as int + 1, ncols as int);
        }
        let mut pattern_index: Option<usize> = None;
        if len > 0 {
            if let Some(id) = &track.sequence[col % len] {
                proof {
                    lemma_valid_slot(*c, ti as int, col as int);
                }
                let pi = find_pattern(&c.patterns, id);
                let pattern = &c.patterns[pi];
                let clip = Clip {
                    pattern_id: id.clone(),
                    column: col,
                    start_step: columns[col].start_step,
                    len_steps: pattern.steps.len(),
                    is_repeat: col >= len,
                };
                clips.push(clip);
                pattern_index = Some(pi);
            }
        }
        proof {
            assert(clips@.map_values(|clip: Clip| clip@) =~= clips_upto(*c, t, col + 1));
        }
        let mut i: usize = 0;
        while i < width
            invariant
                i <= width,
                width == column_len(*c, col as int),
                steps@.len() == start + i,
                steps@.subrange(0, start as int) == before,
                forall|k: int| 0 <= k < i ==> step_view(#[trigger] steps@[start + k]) == step_at(*c, t, col as int, k),
            decreases width - i,
        {
            let resolved: Option<ResolvedStep> = match pattern_index {
                None => None,
                Some(pi) => {
                    let pattern = &c.patterns[pi];
                    if i < pattern.steps.len() {
                        match &pattern.steps[i] {
                            Some(raw) => match parse_note(raw.as_str()) {
                                Ok(note) => Some(
                                    ResolvedStep { sample_id: pattern.sample.clone(), note },
                                ),
                                Err(_) => {
                                    proof {
                                        assert(false);
                                    }
                                    None
                                },
                            },
                            None => None,
                        }
                    } else {
                        None
                    }
                },
            };
            let ghost old_steps = steps@;
            steps.push(resolved);
            proof {
                assert(steps@.subrange(0, start as int) =~= old_steps.subrange(0, start as int));
                assert(steps@[start + i] == resolved);
            }
            i = i + 1;
        }
        proof {
            assert forall|a: int, k: int|
                0 <= a < col + 1 && 0 <= k < column_len(*c, a) implies step_view(
                #[trigger] steps@[column_start(*c, a) + k],
            ) == step_at(*c, t, a, k) by {
                if a < col {
                    lemma_position_before(*c, a, k, col as int);
                    assert(steps@[column_start(*c, a) + k] == steps@.subrange(0, start as int)[column_start(*c, a) + k]);
                } else {
                    assert(steps@[start + k] == steps@[column_start(*c, a) + k]);
                }
            }
        }
        col = col + 1;
    }
    (steps, clips)
}

/// Lays out the arrangement of a valid composition on its grid: the
/// columns, and every track's steps and clips.
pub fn resolve(composition: &Composition) -> (r: ResolvedArrangement)
    requires
        is_valid(*composition),
        total_steps(*composition) <= usize::MAX,
    ensures
        r.total_steps == total_steps(*composition),
        r.columns@.len() == column_count(*composition),
        forall|col: int|
            0 <= col < r.columns@.len() ==> (#[trigger] r.columns@[col]).start_step
                == column_start(*composition, col) && r.columns@[col].len_steps == column_len(
                *composition,
                col,
            ),
        r.tracks@.len() == composition.arrangement.tracks@.len(),
        forall|ti: int|
            0 <= ti < r.tracks@.len() ==> track_resolved(
                *composition,
                composition.arrangement.tracks@[ti],
                #[trigger] r.tracks@[ti],
            ),
{
    let c = composition;
    let max_columns = count_columns(c);
    let column_lengths = compute_column_lengths(c, max_columns);
    let mut columns: Vec<Column> = Vec::new();
    let mut offset: usize = 0;
    let mut col: usize = 0;
    while col < max_columns
        invariant
            max_columns == column_count(*c),
            total_steps(*c) <= usize::MAX,
            column_lengths@.len() == max_columns,
            forall|k: int| 0 <= k < max_columns ==> #[trigger] column_lengths@[k] == column_len(*c, k),
            col <= max_columns,
            offset == column_start(*c, col as int),
            columns@.len() == col,
            forall|k: int|
                0 <= k < col ==> (#[trigger] columns@[k]).start_step == column_start(*c, k)
                    && columns@[k].len_steps == column_len(*c, k),
        decreases max_columns - col,
    {
        proof {
            lemma_column_start_monotone(*c, col as int + 1, max_columns as int);
        }
        let len = column_lengths[col];
        columns.push(Column { start_step: offset, len_steps: len });
        offset = offset + len;
        col = col + 1;
    }
    let total = offset;
    let nt = c.arrangement.tracks.len();
    let mut tracks: Vec<ResolvedTrack> = Vec::new();
    let mut ti: usize = 0;
    while ti < nt
        invariant
            is_valid(*c),
            nt == c.arrangement.tracks@.len(),
            ti <= nt,
            total == total_steps(*c),
            columns@.len() == column_count(*c),
            forall|k: int|
                0 <= k < columns@.len() ==> (#[trigger] columns@[k]).start_step == column_start(*c, k)
                    && columns@[k].len_steps == column_len(*c, k),
            tracks@.len() == ti,
            forall|k: int|
                0 <= k < ti ==> track_resolved(*c, c.arrangement.tracks@[k], #[trigger] tracks@[k]),
        decreases nt - ti,
    {
        let (steps, clips) = resolve_track(c, ti, &columns, total);
        let id = c.arrangement.tracks[ti].id.clone();
        tracks.push(ResolvedTrack { id, steps, clips });
        ti = ti + 1;
    }
    ResolvedArrangement { tracks, columns, total_steps: total }
}

// ----- laws of the grid --------------------------------------------------------

proof fn lemma_max_slot_len_bounds(c: Composition, col: int, n: int, ti: int)
    requires
        0 <= ti < n <= c.arrangement.tracks@.len(),
    ensures
        slot_len(c, c.arrangement.tracks@[ti], col) <= max_slot_len(c, col, n),
    decreases n,
{
    if ti < n - 1 {
        lemma_max_slot_len_bounds(c, col, n - 1, ti);
    }
}

/// Every pattern fits in its column: a column lasts at least as long as
/// the pattern any track places in it, so no pattern runs into the next
/// column.
pub proof fn lemma_patterns_fit_their_columns(c: Composition, ti: int, col: int)
    requires
        0 <= ti < c.arrangement.tracks@.len(),
    ensures
        slot_len(c, c.arrangement.tracks@[ti], col) <= column_len(c, col),
        column_len(c, col) >= 1,
{
    lemma_max_slot_len_bounds(c, col, c.arrangement.tracks@.len() as int, ti);
}

/// A track shorter than the grid starts its sequence over: the column
/// `len` further on holds what this one holds.
pub proof fn lemma_sequence_loops(t: Track, col: int)
    requires
        t.sequence@.len() > 0,
        col >= 0,
    ensures
        slot(t, col + t.sequence@.len()) == slot(t, col),
{
    let n = t.sequence@.len() as int;
    assert((col + n) % n == col % n) by (nonlinear_arith)
        requires
            n > 0,
            col >= 0,
    ;
}

/// The columns tile the timeline: each starts where the one before it
/// ends, and they end at the total length.
pub proof fn lemma_columns_tile_the_timeline(c: Composition, col: int)
    requires
        0 <= col < column_count(c),
    ensures
        column_start(c, col) + column_len(c, col) == column_start(c, col + 1),
        column_start(c, col + 1) <= total_steps(c),
{
    lemma_column_start_monotone(c, col + 1, column_count(c) as int);
}

} // verus!
