//! Reading the seed and the boolean columns of the entry list.
//!
//! The seed is published as a hexadecimal number. A boolean column holds one
//! of a few truthy or falsey words, in any mix of upper and lower case.

use std::num::ParseIntError;
use vstd::prelude::*;

verus! {

/// Why a piece of input was turned down.
#[derive(Debug, PartialEq, Eq)]
pub enum InputError {
    /// The seed is not a hexadecimal number that fits in 64 bits.
    BadSeed,
    /// A boolean column held a word that is neither truthy nor falsey. The
    /// word is kept here, in lower case.
    BadFlag(String),
}

/// The value of a hexadecimal digit, if `c` is one.
pub open spec fn hex_digit(c: char) -> Option<nat> {
    if '0' <= c <= '9' {
        Some((c as nat - '0' as nat) as nat)
    } else if 'a' <= c <= 'f' {
        Some((c as nat - 'a' as nat + 10) as nat)
    } else if 'A' <= c <= 'F' {
        Some((c as nat - 'A' as nat + 10) as nat)
    } else {
        None
    }
}

/// Every character of `digits` is a hexadecimal digit.
pub open spec fn all_hex(digits: Seq<char>) -> bool {
    forall|i: int| 0 <= i < digits.len() ==> hex_digit(#[trigger] digits[i]) is Some
}

/// The number that `digits` denote in base sixteen, the most significant
/// digit first.
pub open spec fn hex_value(digits: Seq<char>) -> nat
    decreases digits.len(),
{
    if digits.len() == 0 {
        0
    } else {
        16 * hex_value(digits.drop_last()) + hex_digit(digits.last()).unwrap()
    }
}

/// The seed that `text` stands for: an optional `+`, then one or more
/// hexadecimal digits whose value fits in 64 bits. Anything else is no seed.
pub open spec fn seed_of(text: Seq<char>) -> Option<u64> {
    let digits = if text.len() > 0 && text[0] == '+' {
        text.drop_first()
    } else {
        text
    };
    if digits.len() > 0 && all_hex(digits) && hex_value(digits) <= u64::MAX {
        Some(hex_value(digits) as u64)
    } else {
        None
    }
}

/// The error of `u64::from_str_radix` of the standard library. It is handed
/// on as it comes; nothing is read from it.
#[verifier::external_type_specification]
#[verifier::external_body]
pub struct ExParseIntError(ParseIntError);

/// Calls `u64::from_str_radix` of the standard library with radix 16.
///
/// Trusted: the text is accepted exactly if it is an optional `+` followed by
/// one or more digits of base sixteen, in either case, whose value fits in
/// 64 bits; the number handed back is that value.
#[verifier::external_body]
fn from_hex(text: &str) -> (res: Result<u64, ParseIntError>)
    ensures
        res is Ok <==> seed_of(text@) is Some,
        res matches Ok(seed) ==> seed_of(text@) == Some(seed),
{
    u64::from_str_radix(text, 16)
}

/// Reads the seed of a raffle from its hexadecimal form.
pub fn parse_seed(text: &str) -> (res: Result<u64, InputError>)
    ensures
        match seed_of(text@) {
            Some(seed) => res == Ok::<u64, InputError>(seed),
            None => res == Err::<u64, InputError>(InputError::BadSeed),
        },
{
    match from_hex(text) {
        Ok(seed) => Ok(seed),
        Err(_) => Err(InputError::BadSeed),
    }
}

/// What `str::to_lowercase` of the standard library makes of `text`.
pub uninterp spec fn lowercase(text: Seq<char>) -> Seq<char>;

/// Calls `str::to_lowercase` of the standard library.
///
/// Trusted: the result is a function of the text alone.
#[verifier::external_body]
fn to_lowercase(text: &str) -> (out: String)
    ensures
        out@ == lowercase(text@),
{
    text.to_lowercase()
}

/// The truth value that a word in lower case stands for, if any.
pub open spec fn flag_value(word: Seq<char>) -> Option<bool> {
    if word == "t"@ || word == "true"@ || word == "1"@ || word == "on"@ || word == "y"@ || word
        == "yes"@ {
        Some(true)
    } else if word == "f"@ || word == "false"@ || word == "0"@ || word == "off"@ || word == "n"@
        || word == "no"@ {
        Some(false)
    } else {
        None
    }
}

/// Whether `a` and `b` hold the same text.
fn same_text(a: &String, b: &str) -> (same: bool)
    ensures
        same == (a@ == b@),
{
    *a == b.to_owned()
}

/// Tells a truthy word from a falsey one. The word is taken as it stands:
/// only lower case is known.
pub fn classify_flag(word: &str) -> (res: Option<bool>)
    ensures
        res == flag_value(word@),
{
    let w = word.to_owned();
    if same_text(&w, "t") || same_text(&w, "true") || same_text(&w, "1") || same_text(&w, "on")
        || same_text(&w, "y") || same_text(&w, "yes") {
        Some(true)
    } else if same_text(&w, "f") || same_text(&w, "false") || same_text(&w, "0") || same_text(
        &w,
        "off",
    ) || same_text(&w, "n") || same_text(&w, "no") {
        Some(false)
    } else {
        None
    }
}

/// Reads a boolean column: the text is put in lower case and must then be
/// one of `t`, `true`, `1`, `on`, `y`, `yes` or of `f`, `false`, `0`, `off`,
/// `n`, `no`.
pub fn parse_flag(text: &str) -> (res: Result<bool, InputError>)
    ensures
        match flag_value(lowercase(text@)) {
            Some(value) => res == Ok::<bool, InputError>(value),
            None => res matches Err(InputError::BadFlag(word)) && word@ == lowercase(text@),
        },
{
    let lowered = to_lowercase(text);
    match classify_flag(lowered.as_str()) {
        Some(value) => Ok(value),
        None => Err(InputError::BadFlag(lowered)),
    }
}

} // verus!
