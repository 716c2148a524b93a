//! The fixed-capacity string of the `arrayvec` crate that a chunk keeps its
//! text in.

use vstd::prelude::*;
use arrayvec::ArrayString;

verus! {

/// `arrayvec::ArrayString`: a string in a fixed-size array.
#[verifier::external_type_specification]
#[verifier::external_body]
pub struct ExArrayString<const CAP: usize>(arrayvec::ArrayString<CAP>);

/// The text that an array string of 128 bytes holds.
pub uninterp spec fn array_string_text(s: ArrayString<128>) -> Seq<char>;

/// `ArrayString::new` makes an empty string.
#[verifier::external_body]
pub(crate) fn array_string_new() -> (s: ArrayString<128>)
    ensures
        array_string_text(s) == Seq::<char>::empty(),
{
    ArrayString::new()
}

/// `ArrayString::as_str` is the text that the string holds.
#[verifier::external_body]
pub(crate) fn array_string_as_str(s: &ArrayString<128>) -> (text: &str)
    ensures
        text@ == array_string_text(*s),
{
    s.as_str()
}

/// `ArrayString::clone` copies the text.
#[verifier::external_body]
pub(crate) fn array_string_clone(s: &ArrayString<128>) -> (copy: ArrayString<128>)
    ensures
        array_string_text(copy) == array_string_text(*s),
{
    s.clone()
}

/// `ArrayString::push_str` appends a text. It panics where the bytes of both do
/// not fit in the array, which is left out here.
#[verifier::external_body]
pub(crate) fn array_string_push_str(s: &mut ArrayString<128>, text: &str)
    requires
        vstd::utf8::encode_utf8(array_string_text(*old(s))).len() + vstd::utf8::encode_utf8(text@).len() <= 128,
    ensures
        array_string_text(*final(s)) == array_string_text(*old(s)) + text@,
{
    s.push_str(text)
}

} // verus!
