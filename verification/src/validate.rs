//! Input validation that gates account creation: email shape and password
//! complexity.
use vstd::prelude::*;

verus! {

use crate::errors::{fe_views, FieldError, FieldErrors};
use vstd::string::StringSliceAdditionalSpecFns;
use vstd::string::StrSliceExecFns;

/// Whether a string is a well-formed email address, as the outside address
/// parser judges it: a function of the string alone.
pub uninterp spec fn email_valid(s: Seq<char>) -> bool;

/// Relies on email_address::EmailAddress::is_valid: whether the string
/// parses as an RFC-compliant address, determined by the string alone.
#[verifier::external_body]
fn email_is_valid(email: &str) -> (r: bool)
    ensures
        r == email_valid(email@),
{
    email_address::EmailAddress::is_valid(email)
}

/// Whether a character counts as uppercase, as std judges it: a function of
/// the character alone.
pub uninterp spec fn uppercase_char(c: char) -> bool;

/// Relies on char::is_uppercase from std: a property of the character alone.
#[verifier::external_body]
fn char_is_uppercase(c: char) -> (r: bool)
    ensures
        r == uppercase_char(c),
{
    c.is_uppercase()
}

/// Whether a character counts as lowercase, as std judges it: a function of
/// the character alone.
pub uninterp spec fn lowercase_char(c: char) -> bool;

/// Relies on char::is_lowercase from std: a property of the character alone.
#[verifier::external_body]
fn char_is_lowercase(c: char) -> (r: bool)
    ensures
        r == lowercase_char(c),
{
    c.is_lowercase()
}

/// The characters that satisfy the "number or special character" rule:
/// ASCII punctuation, the space, the backquote, the backslash and the ten
/// digits.
pub open spec fn special_char(c: char) -> bool {
    let n = c as u32;
    n == 126 || n == 96 || n == 33 || n == 32 || n == 64 || n == 35 || n == 36 || n == 37 || n
        == 94 || n == 38 || n == 42 || n == 40 || n == 41 || n == 95 || n == 45 || n == 43 || n
        == 61 || n == 123 || n == 91 || n == 125 || n == 93 || n == 124 || n == 92 || n == 58 || n
        == 59 || n == 34 || n == 39 || n == 60 || n == 44 || n == 62 || n == 46 || n == 63 || n
        == 47 || (48 <= n <= 57)
}

/// Whether a character satisfies the "number or special character" rule.
fn is_special(c: char) -> (r: bool)
    ensures
        r == special_char(c),
{
    let n = c as u32;
    n == 126 || n == 96 || n == 33 || n == 32 || n == 64 || n == 35 || n == 36 || n == 37 || n
        == 94 || n == 38 || n == 42 || n == 40 || n == 41 || n == 95 || n == 45 || n == 43 || n
        == 61 || n == 123 || n == 91 || n == 125 || n == 93 || n == 124 || n == 92 || n == 58 || n
        == 59 || n == 34 || n == 39 || n == 60 || n == 44 || n == 62 || n == 46 || n == 63 || n
        == 47 || (48 <= n && n <= 57)
}

/// The field errors that a password earns, in the order they are reported:
/// its byte length below 8 or above 128, then a missing uppercase, a
/// missing lowercase, and a missing number-or-special character.
pub open spec fn password_errors(field: Seq<char>, byte_len: nat, chars: Seq<char>) -> Seq<
    (Seq<char>, Seq<char>),
> {
    (if byte_len < 8 {
        seq![(field, "must have at least 8 characters"@)]
    } else {
        Seq::empty()
    }) + (if byte_len > 128 {
        seq![(field, "can't have more than 128 characters"@)]
    } else {
        Seq::empty()
    }) + (if !(exists|i: int| 0 <= i < chars.len() && uppercase_char(#[trigger] chars[i])) {
        seq![(field, "must contain an uppercase character"@)]
    } else {
        Seq::empty()
    }) + (if !(exists|i: int| 0 <= i < chars.len() && lowercase_char(#[trigger] chars[i])) {
        seq![(field, "must contain an lowercase character"@)]
    } else {
        Seq::empty()
    }) + (if !(exists|i: int| 0 <= i < chars.len() && special_char(#[trigger] chars[i])) {
        seq![(field, "must contain a number or special character"@)]
    } else {
        Seq::empty()
    })
}

/// The validation rules.
pub struct Validate;

impl Validate {
    /// Record an error under `field` when the email does not parse.
    pub fn email(field: &str, email: &str, errors: &mut FieldErrors)
        ensures
            email_valid(email@) ==> final(errors).errors@ == old(errors).errors@,
            !email_valid(email@) ==> fe_views(final(errors).errors@) == fe_views(
                old(errors).errors@,
            ).push((field@, "invalid email"@)),
    {
        if !email_is_valid(email) {
            errors.push(FieldError::new(field, "invalid email"));
            proof {
                assert(fe_views(final(errors).errors@) =~= fe_views(old(errors).errors@).push(
                    (field@, "invalid email"@),
                ));
            }
        }
    }

    /// Record every complexity rule the password breaks, under `field`.
    pub fn password(field: &str, password: &str, errors: &mut FieldErrors)
        ensures
            fe_views(final(errors).errors@) == fe_views(old(errors).errors@) + password_errors(
                field@,
                password.len() as nat,
                password@,
            ),
    {
        let n = password.unicode_len();
        let byte_len = password.len();
        let mut has_upper = false;
        let mut has_lower = false;
        let mut has_number_or_special = false;
        let mut i: usize = 0;
        while i < n
            invariant
                i <= n,
                n == password@.len(),
                has_upper == exists|t: int| 0 <= t < i && uppercase_char(#[trigger] password@[t]),
                has_lower == exists|t: int| 0 <= t < i && lowercase_char(#[trigger] password@[t]),
                has_number_or_special == exists|t: int|
                    0 <= t < i && special_char(#[trigger] password@[t]),
            decreases n - i,
        {
            let c = password.get_char(i);
            if !has_upper && char_is_uppercase(c) {
                has_upper = true;
            }
            if !has_lower && char_is_lowercase(c) {
                has_lower = true;
            }
            if !has_number_or_special && is_special(c) {
                has_number_or_special = true;
            }
            i = i + 1;
        }
        let ghost base = fe_views(old(errors).errors@);
        let ghost bl = password.len() as nat;
        let ghost p1: Seq<(Seq<char>, Seq<char>)> = if bl < 8 {
            seq![(field@, "must have at least 8 characters"@)]
        } else {
            Seq::empty()
        };
        let ghost p2: Seq<(Seq<char>, Seq<char>)> = if bl > 128 {
            seq![(field@, "can't have more than 128 characters"@)]
        } else {
            Seq::empty()
        };
        let ghost p3: Seq<(Seq<char>, Seq<char>)> = if !has_upper {
            seq![(field@, "must contain an uppercase character"@)]
        } else {
            Seq::empty()
        };
        let ghost p4: Seq<(Seq<char>, Seq<char>)> = if !has_lower {
            seq![(field@, "must contain an lowercase character"@)]
        } else {
            Seq::empty()
        };
        let ghost p5: Seq<(Seq<char>, Seq<char>)> = if !has_number_or_special {
            seq![(field@, "must contain a number or special character"@)]
        } else {
            Seq::empty()
        };
        if byte_len < 8 {
            errors.push(FieldError::new(field, "must have at least 8 characters"));
        }
        proof {
            assert(fe_views(errors.errors@) =~= base + p1);
        }
        if byte_len > 128 {
            errors.push(FieldError::new(field, "can't have more than 128 characters"));
        }
        proof {
            assert(fe_views(errors.errors@) =~= (base + p1) + p2);
        }
        if !has_upper {
            errors.push(FieldError::new(field, "must contain an uppercase character"));
        }
        proof {
            assert(fe_views(errors.errors@) =~= ((base + p1) + p2) + p3);
        }
        if !has_lower {
            errors.push(FieldError::new(field, "must contain an lowercase character"));
        }
        proof {
            assert(fe_views(errors.errors@) =~= (((base + p1) + p2) + p3) + p4);
        }
        if !has_number_or_special {
            errors.push(FieldError::new(field, "must contain a number or special character"));
        }
        proof {
            assert(fe_views(errors.errors@) =~= ((((base + p1) + p2) + p3) + p4) + p5);
            assert(password_errors(field@, bl, password@) == ((((p1 + p2) + p3) + p4) + p5));
            assert(base + ((((p1 + p2) + p3) + p4) + p5) =~= ((((base + p1) + p2) + p3) + p4)
                + p5);
        }
    }
}

} // verus!
