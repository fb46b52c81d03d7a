//! Short texts of the user interfaces: labels, keys and messages.

use vstd::prelude::*;
use vstd::string::*;

use crate::note::{decimal, decimal_string};
use crate::text::push_char;

verus! {

/// A sample's root note as `C4`-style text: the note name and the octave,
/// or `?` when either is not resolved.
pub fn root_label(note: Option<&str>, octave: Option<u8>) -> (r: String)
    ensures
        r@ == match (note, octave) {
            (Some(n), Some(o)) => n@ + decimal(o as nat),
            _ => "?"@,
        },
{
    proof {
        reveal_strlit("?");
    }
    match (note, octave) {
        (Some(n), Some(o)) => {
            let mut out = String::from_str(n);
            let digits = decimal_string(o as u64);
            out.append(digits.as_str());
            out
        },
        _ => String::from_str("?"),
    }
}

pub open spec fn startup_prefix() -> Seq<char> {
    "bit-music gui-player could not start.\n\n"@
}

/// The text of the dialog shown when the application cannot start.
pub fn startup_error_text(error: &str) -> (r: String)
    ensures
        r@ == startup_prefix() + error@,
{
    let mut out = String::from_str("bit-music gui-player could not start.\n\n");
    out.append(error);
    out
}

/// The key of a sample's preview: `sample:<id>`.
pub fn sample_key(id: &str) -> (r: String)
    ensures
        r@ == "sample:"@ + id@,
{
    let mut out = String::from_str("sample:");
    out.append(id);
    out
}

/// The key of a pattern's preview: `pattern:<id>`.
pub fn pattern_key(id: &str) -> (r: String)
    ensures
        r@ == "pattern:"@ + id@,
{
    let mut out = String::from_str("pattern:");
    out.append(id);
    out
}

/// `n` written with at least two digits.
pub open spec fn two_digits(n: nat) -> Seq<char> {
    if n < 10 {
        seq!['0'] + decimal(n)
    } else {
        decimal(n)
    }
}

/// A duration given in tenths of a second, as `mm:ss.d` (minutes,
/// seconds, tenths; minutes take more digits past 99).
pub open spec fn clock_text(tenths: nat) -> Seq<char> {
    two_digits(tenths / 600) + seq![':'] + two_digits((tenths % 600) / 10) + seq!['.'] + decimal(
        tenths % 10,
    )
}

fn push_two_digits(out: &mut String, n: u64)
    ensures
        final(out)@ == old(out)@ + two_digits(n as nat),
{
    if n < 10 {
        push_char(out, '0');
    }
    let digits = decimal_string(n);
    out.append(digits.as_str());
}

/// `mm:ss.d` for a duration of `tenths` tenths of a second.
pub fn duration_from_tenths(tenths: u64) -> (r: String)
    ensures
        r@ == clock_text(tenths as nat),
{
    let mut out = String::new();
    push_two_digits(&mut out, tenths / 600);
    push_char(&mut out, ':');
    push_two_digits(&mut out, (tenths % 600) / 10);
    push_char(&mut out, '.');
    let digits = decimal_string(tenths % 10);
    out.append(digits.as_str());
    assert(out@ =~= clock_text(tenths as nat));
    out
}

/// `elapsed / total`, both as `mm:ss.d`, from tenths of a second.
pub fn time_label_from_tenths(position: u64, duration: u64) -> (r: String)
    ensures
        r@ == clock_text(position as nat) + " / "@ + clock_text(duration as nat),
{
    let mut out = duration_from_tenths(position);
    out.append(" / ");
    let total = duration_from_tenths(duration);
    out.append(total.as_str());
    out
}

} // verus!
