//! Base64, the text form of binary fields.

use base64::Engine;
use vstd::prelude::*;

verus! {

/// The base64 digit of value `v`.
pub open spec fn base64_digit(v: int) -> char {
    if v < 26 {
        (65 + v) as char
    } else if v < 52 {
        (71 + v) as char
    } else if v < 62 {
        (v - 4) as char
    } else if v == 62 {
        '+'
    } else {
        '/'
    }
}

/// Byte `i`, or zero beyond the end.
pub open spec fn byte_or_zero(bytes: Seq<u8>, i: int) -> int {
    if i < bytes.len() {
        bytes[i] as int
    } else {
        0
    }
}

/// Character `i` of the base64 form: four characters stand for three bytes, and `=` takes the
/// place of those that have no byte to stand for.
pub open spec fn base64_char(bytes: Seq<u8>, i: int) -> char {
    let k = i / 4 * 3;
    if i % 4 == 0 {
        base64_digit(bytes[k] as int / 4)
    } else if i % 4 == 1 {
        base64_digit(bytes[k] as int % 4 * 16 + byte_or_zero(bytes, k + 1) / 16)
    } else if i % 4 == 2 {
        if k + 1 < bytes.len() {
            base64_digit(bytes[k + 1] as int % 16 * 4 + byte_or_zero(bytes, k + 2) / 64)
        } else {
            '='
        }
    } else {
        if k + 2 < bytes.len() {
            base64_digit(bytes[k + 2] as int % 64)
        } else {
            '='
        }
    }
}

/// The length of the base64 form of `n` bytes.
pub open spec fn base64_len(n: int) -> int {
    (n + 2) / 3 * 4
}

/// The base64 form of `bytes`, with padding.
pub open spec fn base64_text(bytes: Seq<u8>) -> Seq<char> {
    Seq::new(base64_len(bytes.len() as int) as nat, |i: int| base64_char(bytes, i))
}

/// The bytes whose base64 form is `s`.
pub open spec fn base64_value(s: Seq<char>) -> Option<Seq<u8>> {
    if exists|bytes: Seq<u8>| base64_text(bytes) == s {
        Some(choose|bytes: Seq<u8>| base64_text(bytes) == s)
    } else {
        None
    }
}

/// What the base64 decoder reports of a text that is no base64 form.
pub uninterp spec fn base64_error(s: Seq<char>) -> Seq<char>;

/// Calls `encode` of `base64::engine::general_purpose::STANDARD`, which the contract states in
/// full. The call panics where the text would be too long for memory.
#[verifier::external_body]
pub(crate) fn base64_encode(bytes: &[u8]) -> (s: String)
    requires
        base64_len(bytes@.len() as int) <= isize::MAX,
    ensures
        s@ == base64_text(bytes@),
{
    base64::engine::general_purpose::STANDARD.encode(bytes)
}

/// Calls `decode` of `base64::engine::general_purpose::STANDARD`. The contract claims that it
/// accepts exactly the texts that encoding gives, and returns what was encoded. The words of
/// the error are those of a function of the text.
#[verifier::external_body]
pub(crate) fn base64_decode(s: &str) -> (result: Result<Vec<u8>, String>)
    ensures
        result is Ok <==> base64_value(s@) is Some,
        result matches Ok(bytes) ==> base64_value(s@) == Some(bytes@),
        result matches Err(e) ==> e@ == base64_error(s@),
{
    base64::engine::general_purpose::STANDARD.decode(s).map_err(|e| e.to_string())
}

proof fn lemma_base64_digit(v: int, w: int)
    requires
        0 <= v < 64,
        0 <= w < 64,
    ensures
        base64_digit(v) == base64_digit(w) ==> v == w,
        base64_digit(v) != '=',
{
}

proof fn lemma_base64_injective(a: Seq<u8>, b: Seq<u8>)
    requires
        base64_text(a) == base64_text(b),
    ensures
        a == b,
{
    let s = base64_text(a);
    let t = base64_text(b);
    assert(s.len() == t.len());
    let n = (a.len() + 2) / 3;
    if n > 0 {
        let i = 4 * (n - 1);
        let k = 3 * (n - 1);
        assert(s[i + 2] == base64_char(a, i + 2) && t[i + 2] == base64_char(b, i + 2));
        assert(s[i + 3] == base64_char(a, i + 3) && t[i + 3] == base64_char(b, i + 3));
        assert((i + 2) / 4 * 3 == k && (i + 3) / 4 * 3 == k);
        lemma_base64_digit(
            byte_or_zero(a, k + 1) % 16 * 4 + byte_or_zero(a, k + 2) / 64,
            byte_or_zero(b, k + 1) % 16 * 4 + byte_or_zero(b, k + 2) / 64,
        );
        lemma_base64_digit(byte_or_zero(a, k + 2) % 64, byte_or_zero(b, k + 2) % 64);
    }
    assert(a.len() == b.len());
    assert forall|j: int| 0 <= j < a.len() implies a[j] == b[j] by {
        let i = j / 3 * 4;
        let k = j / 3 * 3;
        assert(s[i] == base64_char(a, i) && t[i] == base64_char(b, i));
        assert(s[i + 1] == base64_char(a, i + 1) && t[i + 1] == base64_char(b, i + 1));
        assert(s[i + 2] == base64_char(a, i + 2) && t[i + 2] == base64_char(b, i + 2));
        assert(s[i + 3] == base64_char(a, i + 3) && t[i + 3] == base64_char(b, i + 3));
        lemma_base64_digit(a[k] as int / 4, b[k] as int / 4);
        lemma_base64_digit(
            a[k] as int % 4 * 16 + byte_or_zero(a, k + 1) / 16,
            b[k] as int % 4 * 16 + byte_or_zero(b, k + 1) / 16,
        );
        lemma_base64_digit(
            byte_or_zero(a, k + 1) % 16 * 4 + byte_or_zero(a, k + 2) / 64,
            byte_or_zero(b, k + 1) % 16 * 4 + byte_or_zero(b, k + 2) / 64,
        );
        lemma_base64_digit(byte_or_zero(a, k + 2) % 64, byte_or_zero(b, k + 2) % 64);
    }
    assert(a =~= b);
}

/// Decoding undoes encoding.
pub proof fn lemma_base64_round_trip(bytes: Seq<u8>)
    ensures
        base64_value(base64_text(bytes)) == Some(bytes),
{
    let s = base64_text(bytes);
    assert(base64_text(bytes) == s);
    lemma_base64_injective(base64_value(s)->0, bytes);
}

} // verus!
