//! Comparing and building text, and what the standard library knows of
//! the case of characters.
use vstd::prelude::*;
use vstd::string::StringSliceAdditionalSpecFns;

verus! {

/// Whether `c` is an uppercase character.
pub uninterp spec fn is_upper(c: char) -> bool;

/// Whether `c` is a lowercase character.
pub uninterp spec fn is_lower(c: char) -> bool;

/// The characters that `c` becomes in lowercase.
pub uninterp spec fn lowercase_of(c: char) -> Seq<char>;

/// The characters that `c` becomes in uppercase.
pub uninterp spec fn uppercase_of(c: char) -> Seq<char>;

/// The characters that `iter` has yet to yield.
pub uninterp spec fn lowercase_left(iter: core::char::ToLowercase) -> Seq<char>;

/// The characters that `iter` has yet to yield.
pub uninterp spec fn uppercase_left(iter: core::char::ToUppercase) -> Seq<char>;

#[verifier::external_type_specification]
#[verifier::external_body]
pub struct ExToLowercase(core::char::ToLowercase);

#[verifier::external_type_specification]
#[verifier::external_body]
pub struct ExToUppercase(core::char::ToUppercase);

/// `char::is_uppercase`: whether `c` has the Unicode property Uppercase.
/// The result is a function of `c` alone.
#[verifier::external_body]
pub(crate) fn is_uppercase(c: char) -> (upper: bool)
    ensures
        upper == is_upper(c),
{
    c.is_uppercase()
}

/// `char::is_lowercase`: whether `c` has the Unicode property Lowercase.
/// The result is a function of `c` alone.
#[verifier::external_body]
pub(crate) fn is_lowercase(c: char) -> (lower: bool)
    ensures
        lower == is_lower(c),
{
    c.is_lowercase()
}

/// `char::to_lowercase`: an iterator over the lowercase mapping of `c`,
/// which is one character or more and a function of `c` alone.
#[verifier::external_body]
pub(crate) fn to_lowercase(c: char) -> (iter: core::char::ToLowercase)
    ensures
        lowercase_left(iter) == lowercase_of(c),
        lowercase_left(iter).len() >= 1,
{
    c.to_lowercase()
}

/// `Iterator::next` of `ToLowercase`: yields the first of the characters
/// that are left, if there is one, and keeps the rest.
#[verifier::external_body]
pub(crate) fn next_lowercase(iter: &mut core::char::ToLowercase) -> (next: Option<char>)
    ensures
        match next {
            Some(c) => lowercase_left(*old(iter)).len() > 0 && c == lowercase_left(*old(iter))[0]
                && lowercase_left(*final(iter)) == lowercase_left(*old(iter)).drop_first(),
            None => lowercase_left(*old(iter)).len() == 0,
        },
{
    iter.next()
}

/// `char::to_uppercase`: an iterator over the uppercase mapping of `c`,
/// which is one character or more and a function of `c` alone.
#[verifier::external_body]
pub(crate) fn to_uppercase(c: char) -> (iter: core::char::ToUppercase)
    ensures
        uppercase_left(iter) == uppercase_of(c),
        uppercase_left(iter).len() >= 1,
{
    c.to_uppercase()
}

/// `Iterator::next` of `ToUppercase`: yields the first of the characters
/// that are left, if there is one, and keeps the rest.
#[verifier::external_body]
pub(crate) fn next_uppercase(iter: &mut core::char::ToUppercase) -> (next: Option<char>)
    ensures
        match next {
            Some(c) => uppercase_left(*old(iter)).len() > 0 && c == uppercase_left(*old(iter))[0]
                && uppercase_left(*final(iter)) == uppercase_left(*old(iter)).drop_first(),
            None => uppercase_left(*old(iter)).len() == 0,
        },
{
    iter.next()
}

/// `String::push`: appends `c` to the end of `text`.
#[verifier::external_body]
pub(crate) fn push_char(text: &mut String, c: char)
    ensures
        final(text)@ == old(text)@.push(c),
{
    text.push(c)
}

/// The first character of the lowercase mapping of `c`.
pub fn first_lowercase(c: char) -> (lower: char)
    ensures
        lower == lowercase_of(c)[0],
{
    let mut iter = to_lowercase(c);
    match next_lowercase(&mut iter) {
        Some(lower) => lower,
        None => c,
    }
}

/// The first character of the uppercase mapping of `c`.
pub fn first_uppercase(c: char) -> (upper: char)
    ensures
        upper == uppercase_of(c)[0],
{
    let mut iter = to_uppercase(c);
    match next_uppercase(&mut iter) {
        Some(upper) => upper,
        None => c,
    }
}

/// Whether two strings hold the same characters.
pub fn str_eq(a: &str, b: &str) -> (same: bool)
    ensures
        same == (a@ == b@),
{
    let x = a.as_bytes();
    let y = b.as_bytes();
    if x.len() != y.len() {
        return false;
    }
    let mut i: usize = 0;
    while i < x.len()
        invariant
            i <= x.len(),
            x@.len() == y@.len(),
            x@ == a.spec_bytes(),
            y@ == b.spec_bytes(),
            forall|j: int| 0 <= j < i ==> x@[j] == y@[j],
        decreases x.len() - i,
    {
        if x[i] != y[i] {
            return false;
        }
        i = i + 1;
    }
    proof {
        assert(x@ =~= y@);
        vstd::utf8::encode_utf8_decode_utf8(a@);
        vstd::utf8::encode_utf8_decode_utf8(b@);
    }
    true
}

} // verus!
