//! Small string and character helpers shared by the lexer, the parser and the
//! error messages.

use vstd::prelude::*;
use vstd::string::StringExecFns;

verus! {

/// Whether a character counts as alphabetic for identifiers; what
/// `char::is_alphabetic` returns, a function of the character alone.
pub uninterp spec fn alphabetic_char(c: char) -> bool;

/// Whether a character counts as alphanumeric for identifiers; what
/// `char::is_alphanumeric` returns, a function of the character alone.
pub uninterp spec fn alphanumeric_char(c: char) -> bool;

/// Relies on char::is_alphabetic: the result depends on the character alone;
/// the ASCII letters are alphabetic and no other ASCII character is.
#[verifier::external_body]
pub fn is_alphabetic_char(c: char) -> (r: bool)
    ensures
        r == alphabetic_char(c),
        ('a' <= c && c <= 'z') || ('A' <= c && c <= 'Z') ==> r,
        (c as u32) < 128 && !(('a' <= c && c <= 'z') || ('A' <= c && c <= 'Z')) ==> !r,
{
    c.is_alphabetic()
}

/// Relies on char::is_alphanumeric: the result depends on the character
/// alone; alphabetic characters and ASCII digits are alphanumeric, and no
/// other ASCII character is.
#[verifier::external_body]
pub fn is_alphanumeric_char(c: char) -> (r: bool)
    ensures
        r == alphanumeric_char(c),
        alphabetic_char(c) ==> r,
        '0' <= c && c <= '9' ==> r,
        (c as u32) < 128 && !(('a' <= c && c <= 'z') || ('A' <= c && c <= 'Z') || ('0' <= c
            && c <= '9')) ==> !r,
{
    c.is_alphanumeric()
}

/// Relies on String::push: appends exactly one character at the end.
#[verifier::external_body]
pub fn push_char(s: &mut String, c: char)
    ensures
        final(s)@ == old(s)@.push(c),
{
    s.push(c);
}

/// Whether two string slices hold the same characters.
pub fn str_eqs(a: &str, b: &str) -> (r: bool)
    ensures
        r == (a@ == b@),
{
    let sa = String::from_str(a);
    let sb = String::from_str(b);
    sa.eq(&sb)
}

} // verus!
