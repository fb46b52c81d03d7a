//! What the command-line tool reports about a composition it checked or
//! opened.

use vstd::prelude::*;
use vstd::string::*;

use crate::model::Composition;
use crate::note::{decimal, decimal_string};
use crate::timeline::{ResolvedStep, ResolvedTrack};

verus! {

/// `n` in decimal.
pub open spec fn num(n: int) -> Seq<char> {
    decimal(n as nat)
}

/// The line that says a composition is structurally valid.
pub open spec fn integrity_text(c: Composition) -> Seq<char> {
    "OK: '"@ + c.metadata.title@ + "' (format version "@ + c.metadata.version@
        + ") is structurally valid ("@ + num(c.samples@.len() as int) + " samples, "@ + num(
        c.patterns@.len() as int,
    ) + " patterns, "@ + num(c.arrangement.tracks@.len() as int) + " tracks)"@
}

/// The line that says a composition was opened.
pub open spec fn loaded_text(c: Composition) -> Seq<char> {
    "'"@ + c.metadata.title@ + "' (format version "@ + c.metadata.version@ + ") loaded: "@ + num(
        c.samples@.len() as int,
    ) + " samples, "@ + num(c.patterns@.len() as int) + " patterns, "@ + num(
        c.arrangement.tracks@.len() as int,
    ) + " tracks (bpm="@ + num(c.metadata.bpm as int) + ")"@
}

/// How many of the first `n` steps sound.
pub open spec fn playing_count(steps: Seq<Option<ResolvedStep>>, n: int) -> nat
    decreases n,
{
    if n <= 0 {
        0
    } else {
        playing_count(steps, n - 1) + if steps[n - 1] is Some {
            1nat
        } else {
            0nat
        }
    }
}

/// The line that sums up a resolved track.
pub open spec fn track_text(t: ResolvedTrack) -> Seq<char> {
    let n = t.steps@.len() as int;
    let k = playing_count(t.steps@, n) as int;
    "  track '"@ + t.id@ + "': "@ + num(n) + " steps, "@ + num(k) + " playing, "@ + num(n - k)
        + " silent"@
}

/// The line about one sample's file: `OK`, or `FAIL` with the reason.
pub open spec fn sample_check_text(id: Seq<char>, file: Seq<char>, error: Option<Seq<char>>) -> Seq<char> {
    match error {
        None => "OK: sample '"@ + id + "' -> "@ + file,
        Some(e) => "FAIL: sample '"@ + id + "' -> "@ + file + ": "@ + e,
    }
}

fn push_count(out: &mut String, n: usize)
    ensures
        final(out)@ == old(out)@ + num(n as int),
{
    let digits = decimal_string(n as u64);
    out.append(digits.as_str());
}

/// The line that says `c` is structurally valid.
pub fn integrity_report(c: &Composition) -> (r: String)
    ensures
        r@ == integrity_text(*c),
{
    let mut out = String::from_str("OK: '");
    out.append(c.metadata.title.as_str());
    out.append("' (format version ");
    out.append(c.metadata.version.as_str());
    out.append(") is structurally valid (");
    push_count(&mut out, c.samples.len());
    out.append(" samples, ");
    push_count(&mut out, c.patterns.len());
    out.append(" patterns, ");
    push_count(&mut out, c.arrangement.tracks.len());
    out.append(" tracks)");
    out
}

/// The line that says `c` was opened.
pub fn loaded_report(c: &Composition) -> (r: String)
    ensures
        r@ == loaded_text(*c),
{
    let mut out = String::from_str("'");
    out.append(c.metadata.title.as_str());
    out.append("' (format version ");
    out.append(c.metadata.version.as_str());
    out.append(") loaded: ");
    push_count(&mut out, c.samples.len());
    out.append(" samples, ");
    push_count(&mut out, c.patterns.len());
    out.append(" patterns, ");
    push_count(&mut out, c.arrangement.tracks.len());
    out.append(" tracks (bpm=");
    let bpm = decimal_string(c.metadata.bpm as u64);
    out.append(bpm.as_str());
    out.append(")");
    out
}

/// How many steps of `t` sound.
pub fn playing_steps(t: &ResolvedTrack) -> (r: usize)
    ensures
        r == playing_count(t.steps@, t.steps@.len() as int),
        r == sounding_steps(t.steps@).len(),
        r <= t.steps@.len(),
{
    proof {
        lemma_playing_count_is_sounding_steps(t.steps@, t.steps@.len() as int);
        assert(t.steps@.take(t.steps@.len() as int) =~= t.steps@);
    }
    let mut count: usize = 0;
    let mut i: usize = 0;
    while i < t.steps.len()
        invariant
            i <= t.steps@.len(),
            count == playing_count(t.steps@, i as int),
            count <= i,
        decreases t.steps.len() - i,
    {
        if t.steps[i].is_some() {
            count = count + 1;
        }
        i = i + 1;
    }
    count
}

/// The line that sums up `t`: its steps, how many sound, how many are
/// silent.
pub fn track_report(t: &ResolvedTrack) -> (r: String)
    ensures
        r@ == track_text(*t),
{
    let n = t.steps.len();
    let k = playing_steps(t);
    let mut out = String::from_str("  track '");
    out.append(t.id.as_str());
    out.append("': ");
    push_count(&mut out, n);
    out.append(" steps, ");
    push_count(&mut out, k);
    out.append(" playing, ");
    push_count(&mut out, n - k);
    out.append(" silent");
    out
}

/// The line about the file of sample `id`: fine, or the reason it is not.
pub fn sample_check_report(id: &str, file: &str, error: Option<&str>) -> (r: String)
    ensures
        r@ == sample_check_text(
            id@,
            file@,
            match error {
                Some(e) => Some(e@),
                None => None,
            },
        ),
{
    let mut out = match error {
        None => String::from_str("OK: sample '"),
        Some(_) => String::from_str("FAIL: sample '"),
    };
    out.append(id);
    out.append("' -> ");
    out.append(file);
    match error {
        Some(e) => {
            out.append(": ");
            out.append(e);
        },
        None => {},
    }
    out
}


/// How many of the first `n` sample checks succeeded.
pub open spec fn ok_count(ok: Seq<bool>, n: int) -> nat
    decreases n,
{
    if n <= 0 {
        0
    } else {
        ok_count(ok, n - 1) + if ok[n - 1] {
            1nat
        } else {
            0nat
        }
    }
}

/// How many samples loaded, given whether each one's check succeeded.
pub fn ok_sample_count(ok: &Vec<bool>) -> (r: usize)
    ensures
        r == ok_count(ok@, ok@.len() as int),
        r <= ok@.len(),
{
    let mut count: usize = 0;
    let mut i: usize = 0;
    while i < ok.len()
        invariant
            i <= ok@.len(),
            count == ok_count(ok@, i as int),
            count <= i,
        decreases ok.len() - i,
    {
        if ok[i] {
            count = count + 1;
        }
        i = i + 1;
    }
    count
}

proof fn lemma_ok_count_all(ok: Seq<bool>, n: int)
    requires
        0 <= n <= ok.len(),
    ensures
        ok_count(ok, n) <= n,
        ok_count(ok, n) == n <==> forall|i: int| 0 <= i < n ==> ok[i],
    decreases n,
{
    if n > 0 {
        lemma_ok_count_all(ok, n - 1);
    }
}

/// Whether every sample loaded.
pub fn all_samples_ok(ok: &Vec<bool>) -> (r: bool)
    ensures
        r == forall|i: int| 0 <= i < ok@.len() ==> ok@[i],
{
    proof {
        lemma_ok_count_all(ok@, ok@.len() as int);
    }
    ok_sample_count(ok) == ok.len()
}


/// The steps of `steps` that sound, in order.
pub open spec fn sounding_steps(steps: Seq<Option<ResolvedStep>>) -> Seq<Option<ResolvedStep>> {
    steps.filter(|x: Option<ResolvedStep>| x is Some)
}

/// The count of playing steps is the number of steps that sound: every
/// step that is a note counts once, and no silence counts.
pub proof fn lemma_playing_count_is_sounding_steps(steps: Seq<Option<ResolvedStep>>, n: int)
    requires
        0 <= n <= steps.len(),
    ensures
        playing_count(steps, n) == sounding_steps(steps.take(n)).len(),
    decreases n,
{
    reveal(Seq::filter);
    if n > 0 {
        lemma_playing_count_is_sounding_steps(steps, n - 1);
        assert(steps.take(n).drop_last() =~= steps.take(n - 1));
        assert(steps.take(n).last() == steps[n - 1]);
    } else {
        assert(steps.take(0) =~= Seq::<Option<ResolvedStep>>::empty());
    }
}

/// A track whose every step sounds plays all of them and has no silent
/// step; one with no sounding step plays none.
pub proof fn lemma_all_or_no_steps_playing(steps: Seq<Option<ResolvedStep>>, n: int)
    requires
        0 <= n <= steps.len(),
    ensures
        (forall|i: int| 0 <= i < n ==> (#[trigger] steps[i]) is Some) ==> playing_count(steps, n) == n,
        (forall|i: int| 0 <= i < n ==> (#[trigger] steps[i]) is None) ==> playing_count(steps, n) == 0,
        playing_count(steps, n) <= n,
    decreases n,
{
    if n > 0 {
        lemma_all_or_no_steps_playing(steps, n - 1);
    }
}

/// Adding a step to a track adds one to the count when it sounds and
/// nothing when it is silent.
pub proof fn lemma_one_more_step(steps: Seq<Option<ResolvedStep>>, x: Option<ResolvedStep>)
    ensures
        playing_count(steps.push(x), (steps.len() + 1) as int) as int == playing_count(steps, steps.len() as int) as int + if x is Some {
            1int
        } else {
            0int
        },
{
    lemma_playing_count_prefix(steps.push(x), steps, steps.len() as int);
}

proof fn lemma_playing_count_prefix(a: Seq<Option<ResolvedStep>>, b: Seq<Option<ResolvedStep>>, n: int)
    requires
        0 <= n <= b.len(),
        n <= a.len(),
        forall|i: int| 0 <= i < n ==> a[i] == b[i],
    ensures
        playing_count(a, n) == playing_count(b, n),
    decreases n,
{
    if n > 0 {
        lemma_playing_count_prefix(a, b, n - 1);
    }
}

} // verus!
