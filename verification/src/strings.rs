//! `String` operations that vstd does not specify: growing a string one
//! character at a time, and lossy decoding of bytes.

use vstd::prelude::*;

use crate::text::starts_with;

verus! {

/// `String::push`: appends `c` to the end of `s`.
#[verifier::external_body]
pub(crate) fn push_char(s: &mut String, c: char)
    ensures
        final(s)@ == old(s)@.push(c),
{
    s.push(c);
}

/// `prefix` followed by `detail`: an error message over the text of the
/// error it reports.
pub(crate) fn message(prefix: &str, detail: String) -> (m: String)
    ensures
        m@ == prefix@ + detail@,
        starts_with(m@, prefix@),
{
    let mut m = String::from_str(prefix);
    m.append(detail.as_str());
    proof {
        assert((prefix@ + detail@).subrange(0, prefix@.len() as int) =~= prefix@);
    }
    m
}

/// What `String::from_utf8_lossy` makes of `bytes` (a function of the bytes
/// alone: each invalid sequence becomes U+FFFD).
pub uninterp spec fn utf8_lossy(bytes: Seq<u8>) -> Seq<char>;

/// `String::from_utf8_lossy`: the text of `bytes`, invalid sequences
/// replaced by U+FFFD. Valid UTF-8 decodes as it is.
#[verifier::external_body]
pub(crate) fn lossy_text(bytes: &[u8]) -> (s: String)
    ensures
        s@ == utf8_lossy(bytes@),
        vstd::utf8::valid_utf8(bytes@) ==> s@ == vstd::utf8::decode_utf8(bytes@),
{
    String::from_utf8_lossy(bytes).into_owned()
}

} // verus!
