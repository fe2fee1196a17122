//! Recovery phrases.

use vstd::prelude::*;

use crate::random::random_bytes;

verus! {

/// The recovery phrase of 16 bytes of entropy, as `sia::seed::Seed` renders it.
pub uninterp spec fn phrase_of(entropy: Seq<u8>) -> Seq<char>;

/// What `sia::seed::Seed::new` reports of a phrase, where it is not valid.
pub uninterp spec fn phrase_error(phrase: Seq<char>) -> Option<Seq<char>>;

/// How many spaces a text holds.
pub open spec fn spaces(s: Seq<char>) -> nat
    decreases s.len(),
{
    if s.len() == 0 {
        0
    } else {
        spaces(s.drop_last()) + if s.last() == ' ' {
            1nat
        } else {
            0nat
        }
    }
}

/// Whether a text is twelve words with a space between them: there are eleven spaces, none at
/// either end, and no two in a row.
pub open spec fn twelve_words(s: Seq<char>) -> bool {
    &&& spaces(s) == 11
    &&& s.len() > 0
    &&& s[0] != ' '
    &&& s.last() != ' '
    &&& forall|i: int| 0 <= i < s.len() - 1 && (#[trigger] s[i]) == ' ' ==> s[i + 1] != ' '
}

/// Calls `to_string` on `sia::seed::Seed::from_seed`. The contract claims that the phrase is a
/// function of the entropy, that it has twelve words with a space between them, and that it is
/// valid.
#[verifier::external_body]
pub(crate) fn format_phrase(entropy: [u8; 16]) -> (phrase: String)
    ensures
        phrase@ == phrase_of(entropy@),
        twelve_words(phrase@),
        phrase_error(phrase@) is None,
{
    sia::seed::Seed::from_seed(entropy).to_string()
}

/// Calls `sia::seed::Seed::new` and keeps the words of its error, if any. The contract claims
/// that the outcome is a function of the phrase.
#[verifier::external_body]
pub(crate) fn check_phrase(phrase: &str) -> (error: Option<String>)
    ensures
        error is Some <==> phrase_error(phrase@) is Some,
        error matches Some(e) ==> phrase_error(phrase@) == Some(e@),
{
    sia::seed::Seed::new(phrase).err().map(|e| e.to_string())
}

/// The recovery phrase of the given entropy.
pub fn recovery_phrase(entropy: [u8; 16]) -> (phrase: String)
    ensures
        phrase@ == phrase_of(entropy@),
        twelve_words(phrase@),
        phrase_error(phrase@) is None,
{
    format_phrase(entropy)
}

/// Generates a new 12-word recovery phrase. Whatever its entropy, the phrase is one that
/// `validate_recovery_phrase` accepts.
pub fn generate_recovery_phrase() -> (phrase: String)
    ensures
        exists|entropy: [u8; 16]| phrase@ == #[trigger] phrase_of(entropy@),
        twelve_words(phrase@),
        phrase_error(phrase@) is None,
{
    let entropy: [u8; 16] = random_bytes::<16>();
    recovery_phrase(entropy)
}

/// Validates a recovery phrase.
pub fn validate_recovery_phrase(phrase: &str) -> (result: Result<(), String>)
    ensures
        result is Ok <==> phrase_error(phrase@) is None,
        result matches Err(e) ==> phrase_error(phrase@) == Some(e@),
{
    match check_phrase(phrase) {
        None => Ok(()),
        Some(e) => Err(e),
    }
}

} // verus!
