//! Password rules: which bytes a password may use and when it counts as
//! strong. The interactive prompt gathers the bytes; the rules themselves
//! live here.

use vstd::prelude::*;

verus! {

/// Upper-case letters a password may use.
pub const UPPER: &'static str = "ABCDEFGHIJKLMNOPQRSTUVWXYZ";

/// Lower-case letters a password may use.
pub const LOWER: &'static str = "abcdefghijklmnopqrstuvwxyz";

/// Digits a password may use.
pub const NUMBERS: &'static str = "0123456789";

/// Special characters a password may use.
pub const SPECIAL: &'static str = "!@#$%^&*()-_=+[]{}|;:'\",.<>?/";

/// An ASCII upper-case letter.
pub open spec fn is_upper_byte(b: u8) -> bool {
    65 <= b <= 90
}

/// An ASCII lower-case letter.
pub open spec fn is_lower_byte(b: u8) -> bool {
    97 <= b <= 122
}

/// An ASCII digit.
pub open spec fn is_digit_byte(b: u8) -> bool {
    48 <= b <= 57
}

/// One of the special characters of `SPECIAL`.
pub open spec fn is_special_byte(b: u8) -> bool {
    ||| b == 33  // !
    ||| b == 64  // @
    ||| b == 35  // #
    ||| b == 36  // $
    ||| b == 37  // %
    ||| b == 94  // ^
    ||| b == 38  // &
    ||| b == 42  // *
    ||| b == 40  // (
    ||| b == 41  // )
    ||| b == 45  // -
    ||| b == 95  // _
    ||| b == 61  // =
    ||| b == 43  // +
    ||| b == 91  // [
    ||| b == 93  // ]
    ||| b == 123  // {
    ||| b == 125  // }
    ||| b == 124  // |
    ||| b == 59  // ;
    ||| b == 58  // :
    ||| b == 39  // '
    ||| b == 34  // "
    ||| b == 44  // ,
    ||| b == 46  // .
    ||| b == 60  // <
    ||| b == 62  // >
    ||| b == 63  // ?
    ||| b == 47  // /
}

/// A strong password: at least 12 bytes with an upper-case letter, a
/// lower-case letter, a digit and a special character.
pub open spec fn strong_password(p: Seq<u8>) -> bool {
    &&& p.len() >= 12
    &&& exists|i: int| 0 <= i < p.len() && is_upper_byte(#[trigger] p[i])
    &&& exists|i: int| 0 <= i < p.len() && is_lower_byte(#[trigger] p[i])
    &&& exists|i: int| 0 <= i < p.len() && is_digit_byte(#[trigger] p[i])
    &&& exists|i: int| 0 <= i < p.len() && is_special_byte(#[trigger] p[i])
}

fn is_special(b: u8) -> (r: bool)
    ensures
        r == is_special_byte(b),
{
    b == 33 || b == 64 || b == 35 || b == 36 || b == 37 || b == 94 || b == 38 || b == 42 || b == 40
        || b == 41 || b == 45 || b == 95 || b == 61 || b == 43 || b == 91 || b == 93 || b == 123
        || b == 125 || b == 124 || b == 59 || b == 58 || b == 39 || b == 34 || b == 44 || b == 46
        || b == 60 || b == 62 || b == 63 || b == 47
}

/// Whether a candidate password is strong: long enough and mixing upper,
/// lower, digit and special bytes. A weak password is the caller's to
/// accept or refuse; the rule itself is fixed.
pub fn ispasswordstrong(password: &[u8]) -> (r: bool)
    ensures
        r == strong_password(password@),
{
    let n = password.len();
    let mut has_upper = false;
    let mut has_lower = false;
    let mut has_digit = false;
    let mut has_special = false;
    for i in 0..n
        invariant
            n == password@.len(),
            has_upper == (exists|k: int| 0 <= k < i && is_upper_byte(#[trigger] password@[k])),
            has_lower == (exists|k: int| 0 <= k < i && is_lower_byte(#[trigger] password@[k])),
            has_digit == (exists|k: int| 0 <= k < i && is_digit_byte(#[trigger] password@[k])),
            has_special == (exists|k: int| 0 <= k < i && is_special_byte(#[trigger] password@[k])),
    {
        let b = password[i];
        if 65 <= b && b <= 90 {
            has_upper = true;
        }
        if 97 <= b && b <= 122 {
            has_lower = true;
        }
        if 48 <= b && b <= 57 {
            has_digit = true;
        }
        if is_special(b) {
            has_special = true;
        }
    }
    n >= 12 && has_upper && has_lower && has_digit && has_special
}

/// Some byte of `allowed` equals `b`.
pub open spec fn contains_byte(allowed: Seq<u8>, b: u8) -> bool {
    exists|j: int| 0 <= j < allowed.len() && allowed[j] == b
}

/// Every input byte drawn from the allowed set.
pub open spec fn all_bytes_allowed(input: Seq<u8>, allowed: Seq<u8>) -> bool {
    forall|i: int| 0 <= i < input.len() ==> contains_byte(allowed, #[trigger] input[i])
}

fn byte_allowed(allowed: &[u8], b: u8) -> (r: bool)
    ensures
        r == contains_byte(allowed@, b),
{
    let n = allowed.len();
    for j in 0..n
        invariant
            n == allowed@.len(),
            forall|k: int| 0 <= k < j ==> allowed@[k] != b,
    {
        if allowed[j] == b {
            return true;
        }
    }
    false
}

/// Whether the input uses only bytes from the allowed set; what the input
/// prompt accepts.
pub fn isallowedinput(input: &[u8], allowed: &[u8]) -> (r: bool)
    ensures
        r == all_bytes_allowed(input@, allowed@),
{
    let n = input.len();
    for i in 0..n
        invariant
            n == input@.len(),
            forall|k: int| 0 <= k < i ==> contains_byte(allowed@, #[trigger] input@[k]),
    {
        if !byte_allowed(allowed, input[i]) {
            proof {
                if all_bytes_allowed(input@, allowed@) {
                    assert(contains_byte(allowed@, input@[i as int]));
                    let j = choose|j: int|
                        0 <= j < allowed@.len() && allowed@[j] == input@[i as int];
                    assert(false);
                }
            }
            return false;
        }
    }
    true
}

} // verus!
