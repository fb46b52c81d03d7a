//! Musical notation of the format.
//!
//! - A **full note** (in `pattern.steps`): `<letter A-G><accidental?><octave 0-8>`,
//!   e.g. `C4`, `C#4`, `Db3`. The older order with the accidental after the
//!   octave (`C4#`, `D3b`) is read too.
//! - A **note name** (in `sample.rootNote` and the `metadata.others`
//!   defaults): `<letter><accidental?>`, e.g. `C`, `C#`, `Eb`.
//!
//! Letters are case-insensitive; `b` or `B` after the letter or the octave
//! means flat.

use vstd::prelude::*;
use vstd::string::*;

use crate::text::{chars_of, push_char};

verus! {

#[derive(Debug, Clone, Copy, PartialEq, Eq, Structural)]
pub enum Accidental {
    Sharp,
    Flat,
}

#[derive(Debug, Clone, Copy, PartialEq, Eq, Structural)]
pub struct Note {
    pub letter: char,
    pub octave: u8,
    pub accidental: Option<Accidental>,
}

#[derive(Debug, Clone, PartialEq, Eq)]
pub enum NoteParseError {
    /// Not `NOTE[#|b]OCTAVE`; carries the whole input.
    InvalidFormat(String),
    /// The (upper-cased) first character is not A-G.
    InvalidLetter(char),
    /// The octave is a number above 8.
    OctaveOutOfRange(u8),
}

/// What a note parse error says, as plain values.
pub enum NoteFault {
    InvalidFormat(Seq<char>),
    InvalidLetter(char),
    OctaveOutOfRange(u8),
}

impl View for NoteParseError {
    type V = NoteFault;

    open spec fn view(&self) -> NoteFault {
        match self {
            NoteParseError::InvalidFormat(s) => NoteFault::InvalidFormat(s@),
            NoteParseError::InvalidLetter(c) => NoteFault::InvalidLetter(*c),
            NoteParseError::OctaveOutOfRange(o) => NoteFault::OctaveOutOfRange(*o),
        }
    }
}

/// A parse result with its error taken by its view.
pub open spec fn note_result(r: Result<Note, NoteParseError>) -> Result<Note, NoteFault> {
    match r {
        Ok(n) => Ok(n),
        Err(e) => Err(e@),
    }
}

// ----- character classes -------------------------------------------------

/// ASCII upper-casing; every other character is unchanged.
pub open spec fn upper(c: char) -> char {
    if 'a' <= c && c <= 'z' {
        ((c as u8) - 32) as u8 as char
    } else {
        c
    }
}

pub open spec fn is_note_letter(c: char) -> bool {
    'A' <= c && c <= 'G'
}

/// `#` is sharp; `b` and `B` are flat.
pub open spec fn accidental_of(c: char) -> Option<Accidental> {
    if c == '#' {
        Some(Accidental::Sharp)
    } else if c == 'b' || c == 'B' {
        Some(Accidental::Flat)
    } else {
        None
    }
}

pub open spec fn is_digit(c: char) -> bool {
    '0' <= c && c <= '9'
}

pub open spec fn digit_value(c: char) -> nat {
    ((c as u32) - ('0' as u32)) as nat
}

/// The end of the run of ASCII digits that starts at `i`.
pub open spec fn digits_end(s: Seq<char>, i: int) -> int
    decreases s.len() - i,
{
    if 0 <= i < s.len() && is_digit(s[i]) {
        digits_end(s, i + 1)
    } else {
        i
    }
}

/// The decimal value of a run of ASCII digits.
pub open spec fn decimal_value(d: Seq<char>) -> nat
    decreases d.len(),
{
    if d.len() == 0 {
        0
    } else {
        decimal_value(d.drop_last()) * 10 + digit_value(d.last())
    }
}

// ----- the notation --------------------------------------------------------

/// What parsing a full note gives for the characters `s`.
///
/// The letter comes first; an accidental may follow it; then a non-empty run
/// of digits, read as an octave that must fit a byte (else the format is
/// invalid) and be at most 8; then, only if there was no accidental before
/// the octave, one optional accidental; then nothing.
pub open spec fn parse_note_spec(s: Seq<char>) -> Result<Note, NoteFault> {
    if s.len() == 0 {
        Err(NoteFault::InvalidFormat(s))
    } else if !is_note_letter(upper(s[0])) {
        Err(NoteFault::InvalidLetter(upper(s[0])))
    } else {
        let before = if s.len() > 1 { accidental_of(s[1]) } else { None };
        let start: int = if before is Some { 2 } else { 1 };
        let end = digits_end(s, start);
        let octave = decimal_value(s.subrange(start, end));
        if end == start || octave > 255 {
            Err(NoteFault::InvalidFormat(s))
        } else if octave > 8 {
            Err(NoteFault::OctaveOutOfRange(octave as u8))
        } else if end == s.len() {
            Ok(Note { letter: upper(s[0]), octave: octave as u8, accidental: before })
        } else if end + 1 == s.len() && before is None && accidental_of(s[end]) is Some {
            Ok(Note { letter: upper(s[0]), octave: octave as u8, accidental: accidental_of(s[end]) })
        } else {
            Err(NoteFault::InvalidFormat(s))
        }
    }
}

/// What parsing a note name (letter and optional accidental) gives.
pub open spec fn parse_note_name_spec(s: Seq<char>) -> Option<(char, Option<Accidental>)> {
    if s.len() == 0 || !is_note_letter(upper(s[0])) {
        None
    } else if s.len() == 1 {
        Some((upper(s[0]), None))
    } else if s.len() == 2 && accidental_of(s[1]) is Some {
        Some((upper(s[0]), accidental_of(s[1])))
    } else {
        None
    }
}

/// Semitone of a letter within the octave, C being 0.
pub open spec fn letter_base(letter: char) -> int {
    if letter == 'C' {
        0
    } else if letter == 'D' {
        2
    } else if letter == 'E' {
        4
    } else if letter == 'F' {
        5
    } else if letter == 'G' {
        7
    } else if letter == 'A' {
        9
    } else {
        11
    }
}

pub open spec fn accidental_delta(accidental: Option<Accidental>) -> int {
    match accidental {
        None => 0,
        Some(Accidental::Sharp) => 1,
        Some(Accidental::Flat) => -1,
    }
}

/// Semitone offset (0-11) within an octave, wrapping `Cb` and `B#` around.
pub open spec fn semitone_offset_spec(letter: char, accidental: Option<Accidental>) -> int {
    (letter_base(letter) + accidental_delta(accidental)) % 12
}

/// Octave times twelve plus the offset: a consistent absolute scale.
pub open spec fn absolute_semitone_spec(n: Note) -> int {
    n.octave * 12 + semitone_offset_spec(n.letter, n.accidental)
}

/// The character of a decimal digit.
pub open spec fn digit_char(d: nat) -> char {
    (('0' as u32) + d) as u8 as char
}

/// The decimal spelling of `n`, without leading zeros.
pub open spec fn decimal(n: nat) -> Seq<char>
    decreases n,
{
    if n < 10 {
        seq![digit_char(n)]
    } else {
        decimal(n / 10).push(digit_char(n % 10))
    }
}

pub open spec fn accidental_text(accidental: Option<Accidental>) -> Seq<char> {
    match accidental {
        None => seq![],
        Some(Accidental::Sharp) => seq!['#'],
        Some(Accidental::Flat) => seq!['b'],
    }
}

/// The canonical spelling: letter, accidental, octave (`C#4`, `Db3`).
pub open spec fn canonical_spelling(n: Note) -> Seq<char> {
    seq![n.letter] + accidental_text(n.accidental) + decimal(n.octave as nat)
}

/// A note as `parse_note` produces it: an upper-case letter A-G and an
/// octave 0-8.
pub open spec fn well_formed_note(n: Note) -> bool {
    is_note_letter(n.letter) && n.octave <= 8
}

// ----- executable ---------------------------------------------------------

pub fn ascii_upper(c: char) -> (r: char)
    ensures
        r == upper(c),
{
    if 'a' <= c && c <= 'z' {
        ((c as u8) - 32) as char
    } else {
        c
    }
}

fn accidental_from(c: char) -> (r: Option<Accidental>)
    ensures
        r == accidental_of(c),
{
    if c == '#' {
        Some(Accidental::Sharp)
    } else if c == 'b' || c == 'B' {
        Some(Accidental::Flat)
    } else {
        None
    }
}

pub proof fn lemma_decimal_value_grows(d: Seq<char>, c: char)
    requires
        is_digit(c),
    ensures
        decimal_value(d.push(c)) == decimal_value(d) * 10 + digit_value(c),
        decimal_value(d.push(c)) >= decimal_value(d),
{
    assert(d.push(c).drop_last() =~= d);
}

pub proof fn lemma_digits_end_bounds(s: Seq<char>, i: int)
    requires
        0 <= i <= s.len(),
    ensures
        i <= digits_end(s, i) <= s.len(),
        forall|k: int| i <= k < digits_end(s, i) ==> is_digit(#[trigger] s[k]),
        digits_end(s, i) < s.len() ==> !is_digit(s[digits_end(s, i)]),
    decreases s.len() - i,
{
    if i < s.len() && is_digit(s[i]) {
        lemma_digits_end_bounds(s, i + 1);
    }
}

/// Reads the run of digits of `chars` from `start`: its end, and its value
/// when that value fits a byte.
pub fn read_digits(chars: &Vec<char>, start: usize) -> (r: (usize, Option<u8>))
    requires
        start <= chars@.len(),
    ensures
        r.0 == digits_end(chars@, start as int),
        start <= r.0 <= chars@.len(),
        match r.1 {
            Some(v) => v as nat == decimal_value(chars@.subrange(start as int, r.0 as int)),
            None => decimal_value(chars@.subrange(start as int, r.0 as int)) > 255,
        },
{
    let n = chars.len();
    let mut i = start;
    let mut value: u32 = 0;
    let mut big = false;
    proof {
        lemma_digits_end_bounds(chars@, start as int);
    }
    while i < n && '0' <= chars[i] && chars[i] <= '9'
        invariant
            n == chars@.len(),
            start <= i <= n,
            digits_end(chars@, i as int) == digits_end(chars@, start as int),
            big ==> decimal_value(chars@.subrange(start as int, i as int)) > 255,
            !big ==> value as nat == decimal_value(chars@.subrange(start as int, i as int)),
            !big ==> value <= 255,
        decreases n - i,
    {
        let c = chars[i];
        let d = (c as u32) - ('0' as u32);
        proof {
            assert(chars@.subrange(start as int, i + 1) =~= chars@.subrange(
                start as int,
                i as int,
            ).push(c));
            lemma_decimal_value_grows(chars@.subrange(start as int, i as int), c);
        }
        if !big {
            let next = value * 10 + d;
            if next > 255 {
                big = true;
            } else {
                value = next;
            }
        }
        i = i + 1;
    }
    if big {
        (i, None)
    } else {
        (i, Some(value as u8))
    }
}

/// Parses a full note with octave, e.g. as used in `pattern.steps`.
///
/// The canonical spelling puts the accidental before the octave (`C#4`,
/// `Db3`); the older one, after it (`C4#`, `D3b`), is accepted too.
pub fn parse_note(input: &str) -> (r: Result<Note, NoteParseError>)
    ensures
        note_result(r) == parse_note_spec(input@),
{
    let chars = chars_of(input);
    let n = chars.len();
    if n == 0 {
        return Err(NoteParseError::InvalidFormat(String::from_str(input)));
    }
    let letter = ascii_upper(chars[0]);
    if !('A' <= letter && letter <= 'G') {
        return Err(NoteParseError::InvalidLetter(letter));
    }
    let mut accidental = if n > 1 { accidental_from(chars[1]) } else { None };
    let start: usize = if accidental.is_some() { 2 } else { 1 };
    let (end, value) = read_digits(&chars, start);
    if end == start {
        return Err(NoteParseError::InvalidFormat(String::from_str(input)));
    }
    let octave = match value {
        None => {
            return Err(NoteParseError::InvalidFormat(String::from_str(input)));
        },
        Some(v) => v,
    };
    if octave > 8 {
        return Err(NoteParseError::OctaveOutOfRange(octave));
    }
    if end < n {
        match accidental_from(chars[end]) {
            Some(a) => {
                if accidental.is_none() {
                    accidental = Some(a);
                } else {
                    return Err(NoteParseError::InvalidFormat(String::from_str(input)));
                }
            },
            None => {
                return Err(NoteParseError::InvalidFormat(String::from_str(input)));
            },
        }
        if end + 1 < n {
            return Err(NoteParseError::InvalidFormat(String::from_str(input)));
        }
    }
    Ok(Note { letter, octave, accidental })
}

/// Parses a note name without octave (letter and optional accidental), e.g.
/// as used in `sample.rootNote`. `None` if the format is invalid.
pub fn parse_note_name(input: &str) -> (r: Option<(char, Option<Accidental>)>)
    ensures
        r == parse_note_name_spec(input@),
{
    let chars = chars_of(input);
    let n = chars.len();
    if n == 0 {
        return None;
    }
    let letter = ascii_upper(chars[0]);
    if !('A' <= letter && letter <= 'G') {
        return None;
    }
    if n == 1 {
        return Some((letter, None));
    }
    let accidental = accidental_from(chars[1]);
    if n == 2 && accidental.is_some() {
        Some((letter, accidental))
    } else {
        None
    }
}

/// Whether `input` is a valid note name without octave.
pub fn is_valid_note_name(input: &str) -> (r: bool)
    ensures
        r == parse_note_name_spec(input@) is Some,
{
    parse_note_name(input).is_some()
}

/// Semitone offset (0-11) of a letter and accidental within an octave, C
/// being 0. `Cb` and `B#` wrap around within the octave.
pub fn semitone_offset(letter: char, accidental: Option<Accidental>) -> (r: i32)
    requires
        is_note_letter(letter),
    ensures
        r == semitone_offset_spec(letter, accidental),
        0 <= r < 12,
{
    let base: i32 = if letter == 'C' {
        0
    } else if letter == 'D' {
        2
    } else if letter == 'E' {
        4
    } else if letter == 'F' {
        5
    } else if letter == 'G' {
        7
    } else if letter == 'A' {
        9
    } else {
        11
    };
    let delta: i32 = match accidental {
        None => 0,
        Some(Accidental::Sharp) => 1,
        Some(Accidental::Flat) => -1,
    };
    let sum = base + delta;
    if sum < 0 {
        sum + 12
    } else if sum >= 12 {
        sum - 12
    } else {
        sum
    }
}

impl Note {
    /// Absolute semitone (octave included): only differences between two
    /// notes are meaningful.
    pub fn absolute_semitone(&self) -> (r: i32)
        requires
            is_note_letter(self.letter),
        ensures
            r == absolute_semitone_spec(*self),
    {
        self.octave as i32 * 12 + semitone_offset(self.letter, self.accidental)
    }

    /// The canonical spelling, the accidental before the octave: `C#4`.
    pub fn to_string(&self) -> (r: String)
        ensures
            r@ == canonical_spelling(*self),
    {
        let mut out = String::new();
        push_char(&mut out, self.letter);
        match self.accidental {
            None => {},
            Some(Accidental::Sharp) => push_char(&mut out, '#'),
            Some(Accidental::Flat) => push_char(&mut out, 'b'),
        }
        let digits = decimal_string(self.octave as u64);
        out.append(digits.as_str());
        assert(out@ =~= canonical_spelling(*self));
        out
    }
}

/// The decimal spelling of `n`.
pub fn decimal_string(n: u64) -> (r: String)
    ensures
        r@ == decimal(n as nat),
    decreases n,
{
    if n < 10 {
        let mut out = String::new();
        push_char(&mut out, ((n as u8) + 48) as char);
        assert(out@ =~= decimal(n as nat));
        out
    } else {
        let mut out = decimal_string(n / 10);
        push_char(&mut out, (((n % 10) as u8) + 48) as char);
        out
    }
}



/// A note that parses is well formed: an upper-case letter A-G and an
/// octave 0-8.
pub proof fn lemma_parse_note_octave(s: Seq<char>)
    ensures
        parse_note_spec(s) matches Ok(n) ==> well_formed_note(n),
{
}

// ----- laws ----------------------------------------------------------------

/// A single digit is its own decimal spelling, and reads back as itself.
proof fn lemma_single_digit(o: nat)
    requires
        o <= 9,
    ensures
        decimal(o) == seq![digit_char(o)],
        is_digit(digit_char(o)),
        digit_value(digit_char(o)) == o,
        decimal_value(seq![digit_char(o)]) == o,
{
    assert(seq![digit_char(o)].drop_last() =~= Seq::<char>::empty());
    assert(decimal_value(Seq::<char>::empty()) == 0);
    assert(seq![digit_char(o)].last() == digit_char(o));
}

/// Printing a well-formed note and parsing the text back gives the same
/// note: the canonical spelling round-trips.
pub proof fn lemma_canonical_spelling_round_trips(n: Note)
    requires
        well_formed_note(n),
    ensures
        parse_note_spec(canonical_spelling(n)) == Ok::<Note, NoteFault>(n),
{
    let s = canonical_spelling(n);
    lemma_single_digit(n.octave as nat);
    let d = digit_char(n.octave as nat);
    let start: int = if n.accidental is Some { 2 } else { 1 };
    assert(upper(n.letter) == n.letter);
    match n.accidental {
        None => {
            assert(s =~= seq![n.letter, d]);
            assert(accidental_of(d) is None);
        },
        Some(Accidental::Sharp) => {
            assert(s =~= seq![n.letter, '#', d]);
        },
        Some(Accidental::Flat) => {
            assert(s =~= seq![n.letter, 'b', d]);
        },
    }
    assert(digits_end(s, start + 1) == start + 1);
    assert(digits_end(s, start) == start + 1);
    assert(s.subrange(start, start + 1) =~= seq![d]);
}

/// The older spelling, with the accidental after the octave, reads as the
/// same note as the canonical one with the accidental before it: either
/// both parse, to the same note, or neither does.
pub proof fn lemma_older_spelling_reads_the_same(
    letter: char,
    accidental: char,
    digits: Seq<char>,
)
    requires
        accidental_of(accidental) is Some,
        digits.len() > 0,
        forall|k: int| 0 <= k < digits.len() ==> is_digit(#[trigger] digits[k]),
    ensures
        parse_note_spec(seq![letter, accidental] + digits) is Ok <==> parse_note_spec(
            seq![letter] + digits + seq![accidental],
        ) is Ok,
        parse_note_spec(seq![letter, accidental] + digits) is Ok ==> parse_note_spec(
            seq![letter, accidental] + digits,
        ) == parse_note_spec(seq![letter] + digits + seq![accidental]),
{
    let canonical = seq![letter, accidental] + digits;
    let older = seq![letter] + digits + seq![accidental];
    lemma_digits_run(canonical, 2, digits.len() as int);
    lemma_digits_run(older, 1, digits.len() as int);
    assert(canonical.subrange(2, 2 + digits.len() as int) =~= digits);
    assert(older.subrange(1, 1 + digits.len() as int) =~= digits);
    assert(older[1] == digits[0]);
    assert(accidental_of(digits[0]) is None);
    assert(older[1 + digits.len() as int] == accidental);
}

/// A run of `len` digits starting at `i`, followed by the end or by a
/// non-digit, ends at `i + len`.
proof fn lemma_digits_run(s: Seq<char>, i: int, len: int)
    requires
        0 <= i,
        0 <= len,
        i + len <= s.len(),
        forall|k: int| i <= k < i + len ==> is_digit(#[trigger] s[k]),
        i + len < s.len() ==> !is_digit(s[i + len]),
    ensures
        digits_end(s, i) == i + len,
    decreases len,
{
    if len > 0 {
        lemma_digits_run(s, i + 1, len - 1);
    }
}

} // verus!
