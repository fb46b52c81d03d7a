//! From a composition as read from JSON to a validated one.
//!
//! The JSON text itself is read into a [`Composition`] elsewhere (its
//! shape); here the sample defaults are applied and the format's rules
//! checked.

use vstd::prelude::*;

use crate::model::Composition;
use crate::validate::{
    apply_sample_defaults, lemma_step_counts_are_multiples_of_four, sample_defaults_spec, sample_with_defaults, validate, validate_spec,
    ValidationError, ValidationFault,
};

verus! {

#[derive(Debug)]
pub enum FormatError {
    /// The JSON does not have the expected shape (the reader's message).
    Parse(String),
    /// The composition breaks a rule of the format.
    Validation(ValidationError),
}

/// `new` is `old` with the sample defaults `note` / `octave` applied.
pub open spec fn defaults_applied(old: Composition, new: Composition, note: Seq<char>, octave: u8) -> bool {
    &&& new.metadata == old.metadata
    &&& new.patterns == old.patterns
    &&& new.arrangement == old.arrangement
    &&& new.samples@.len() == old.samples@.len()
    &&& forall|i: int|
        0 <= i < old.samples@.len() ==> sample_with_defaults(
            #[trigger] old.samples@[i],
            new.samples@[i],
            note,
            octave,
        )
}

/// Finishes reading a composition: given the outcome of reading its JSON
/// shape, applies the sample defaults (`metadata.others`, else `C4`) and
/// then checks every rule of the format.
pub fn parse_composition(shape: Result<Composition, String>) -> (r: Result<Composition, FormatError>)
    ensures
        match shape {
            Err(message) => r matches Err(FormatError::Parse(m)) && m == message,
            Ok(c) => match sample_defaults_spec(c.metadata) {
                Err(f) => r matches Err(FormatError::Validation(e)) && e@ == f,
                Ok((note, octave)) => match r {
                    Ok(out) => defaults_applied(c, out, note, octave) && validate_spec(out) is Ok,
                    Err(FormatError::Validation(e)) => exists|out: Composition|
                        defaults_applied(c, out, note, octave) && validate_spec(out) == Err::<
                            (),
                            ValidationFault,
                        >(e@),
                    Err(FormatError::Parse(_)) => false,
                },
            },
        },
{
    let mut composition = match shape {
        Err(message) => {
            return Err(FormatError::Parse(message));
        },
        Ok(c) => c,
    };
    match apply_sample_defaults(&mut composition) {
        Err(e) => {
            return Err(FormatError::Validation(e));
        },
        Ok(()) => {},
    }
    match validate(&composition) {
        Err(e) => {
            return Err(FormatError::Validation(e));
        },
        Ok(()) => {},
    }
    Ok(composition)
}


/// Reading a composition rejects it when one of its patterns has a step
/// count that is not a multiple of 4: applying the sample defaults leaves
/// the patterns as they were, so what gets validated has that pattern too.
pub proof fn lemma_reading_rejects_bad_step_counts(c: Composition, out: Composition, note: Seq<char>, octave: u8, i: int)
    requires
        defaults_applied(c, out, note, octave),
        0 <= i < c.patterns@.len(),
        c.patterns@[i].steps@.len() % 4 != 0,
    ensures
        validate_spec(out) is Err,
{
    lemma_step_counts_are_multiples_of_four(out, i);
}

} // verus!
