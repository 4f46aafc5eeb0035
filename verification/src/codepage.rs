//! Windows code page 1252, the character set of every string the instrument
//! stores or sends. The conversion itself is done by the `yore` crate; this
//! module gives its results a name that contracts can speak of.

use vstd::prelude::*;

verus! {

/// The text that code page 1252 assigns to a byte string: what
/// `yore::code_pages::CP1252.decode` returns for it.
pub uninterp spec fn cp1252_text(bytes: Seq<u8>) -> Seq<char>;

/// The bytes that stand for a text in code page 1252, or `None` where some
/// character of the text has no place in the code page: what
/// `yore::code_pages::CP1252.encode` returns for it.
pub uninterp spec fn cp1252_bytes(text: Seq<char>) -> Option<Seq<u8>>;

/// Calls `yore::code_pages::CP1252.decode`. Code page 1252 is complete in
/// `yore`: every byte has a character, so the call always yields a text.
/// Trusted: the result is the text named `cp1252_text` of the given bytes.
#[verifier::external_body]
pub(crate) fn decode_cp1252(bytes: &[u8]) -> (text: String)
    ensures
        text@ == cp1252_text(bytes@),
{
    yore::code_pages::CP1252.decode(bytes).into_owned()
}

/// Calls `yore::code_pages::CP1252.encode`, which fails, with an error that
/// carries no data, when a character of the text is not in the code page.
/// Trusted: the outcome is the one named `cp1252_bytes` of the given text.
#[verifier::external_body]
pub(crate) fn encode_cp1252(text: &str) -> (r: Option<Vec<u8>>)
    ensures
        match r {
            Some(bytes) => cp1252_bytes(text@) == Some(bytes@),
            None => cp1252_bytes(text@) is None,
        },
{
    match yore::code_pages::CP1252.encode(text) {
        Ok(bytes) => Some(bytes.into_owned()),
        Err(_) => None,
    }
}

} // verus!
