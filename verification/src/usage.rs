//! Where an element of a composition is used, as the properties panel of
//! the graphical player lists it: the patterns that play a sample, and how
//! many times each track plays a pattern.

use vstd::prelude::*;
use vstd::string::*;

use crate::model::Pattern;
use crate::note::decimal_string;
use crate::report::num;
use crate::text::str_eq;
use crate::timeline::{Clip, ResolvedTrack};

verus! {

/// The ids of the first `n` patterns that play sample `id`, in order.
pub open spec fn users_upto(patterns: Seq<Pattern>, id: Seq<char>, n: int) -> Seq<Seq<char>>
    decreases n,
{
    if n <= 0 {
        Seq::empty()
    } else {
        let rest = users_upto(patterns, id, n - 1);
        if patterns[n - 1].sample@ == id {
            rest.push(patterns[n - 1].id@)
        } else {
            rest
        }
    }
}

/// `parts` joined by `, `.
pub open spec fn comma_joined(parts: Seq<Seq<char>>) -> Seq<char>
    decreases parts.len(),
{
    if parts.len() == 0 {
        Seq::empty()
    } else if parts.len() == 1 {
        parts[0]
    } else {
        comma_joined(parts.drop_last()) + ", "@ + parts.last()
    }
}

/// What the panel says of a sample's users: the patterns that play it,
/// separated by commas, or `none`.
pub open spec fn users_text(patterns: Seq<Pattern>, id: Seq<char>) -> Seq<char> {
    let users = users_upto(patterns, id, patterns.len() as int);
    if users.len() == 0 {
        "none"@
    } else {
        comma_joined(users)
    }
}

/// How many of the first `n` clips are of pattern `id` (only the loop
/// repetitions when `repeats` is set).
pub open spec fn clip_count(clips: Seq<Clip>, id: Seq<char>, repeats: bool, n: int) -> nat
    decreases n,
{
    if n <= 0 {
        0
    } else {
        clip_count(clips, id, repeats, n - 1) + if clips[n - 1].pattern_id@ == id && (!repeats
            || clips[n - 1].is_repeat) {
            1nat
        } else {
            0nat
        }
    }
}

/// What the panel says of how track `t` uses pattern `id`: nothing when it
/// does not, else `<track>: <n> time(s)`, followed by how many of those
/// come from the track's sequence looping, if any.
pub open spec fn track_usage_text(t: ResolvedTrack, id: Seq<char>) -> Option<Seq<char>> {
    let total = clip_count(t.clips@, id, false, t.clips@.len() as int);
    let repeats = clip_count(t.clips@, id, true, t.clips@.len() as int);
    if total == 0 {
        None
    } else {
        Some(t.id@ + ": "@ + num(total as int) + " time(s)"@ + if repeats > 0 {
            " ("@ + num(repeats as int) + " from looping)"@
        } else {
            Seq::empty()
        })
    }
}

/// The patterns that play sample `id`, as the panel lists them.
pub fn sample_users_text(patterns: &Vec<Pattern>, id: &str) -> (r: String)
    ensures
        r@ == users_text(patterns@, id@),
{
    let mut out = String::new();
    let mut found: usize = 0;
    let mut i: usize = 0;
    while i < patterns.len()
        invariant
            i <= patterns@.len(),
            found == users_upto(patterns@, id@, i as int).len(),
            found <= i,
            out@ == comma_joined(users_upto(patterns@, id@, i as int)),
        decreases patterns.len() - i,
    {
        if str_eq(patterns[i].sample.as_str(), id) {
            if found > 0 {
                out.append(", ");
            }
            out.append(patterns[i].id.as_str());
            found = found + 1;
            proof {
                let u = users_upto(patterns@, id@, i + 1);
                assert(u.drop_last() =~= users_upto(patterns@, id@, i as int));
            }
        }
        i = i + 1;
    }
    if found == 0 {
        String::from_str("none")
    } else {
        out
    }
}

fn count_clips(clips: &Vec<Clip>, id: &str, repeats: bool) -> (r: usize)
    ensures
        r == clip_count(clips@, id@, repeats, clips@.len() as int),
{
    let mut count: usize = 0;
    let mut i: usize = 0;
    while i < clips.len()
        invariant
            i <= clips@.len(),
            count == clip_count(clips@, id@, repeats, i as int),
            count <= i,
        decreases clips.len() - i,
    {
        if str_eq(clips[i].pattern_id.as_str(), id) && (!repeats || clips[i].is_repeat) {
            count = count + 1;
        }
        i = i + 1;
    }
    count
}

/// How track `t` uses pattern `id`, as the panel lists it.
pub fn track_usage(t: &ResolvedTrack, id: &str) -> (r: Option<String>)
    ensures
        match r {
            Some(s) => track_usage_text(*t, id@) == Some(s@),
            None => track_usage_text(*t, id@) is None,
        },
{
    let total = count_clips(&t.clips, id, false);
    if total == 0 {
        return None;
    }
    let repeats = count_clips(&t.clips, id, true);
    let mut out = t.id.clone();
    out.append(": ");
    let digits = decimal_string(total as u64);
    out.append(digits.as_str());
    out.append(" time(s)");
    if repeats > 0 {
        out.append(" (");
        let r = decimal_string(repeats as u64);
        out.append(r.as_str());
        out.append(" from looping)");
    }
    Some(out)
}

} // verus!
