use vstd::prelude::*;
use vstd::string::StringSliceAdditionalSpecFns;

verus! {

/// Calls `std::str::from_utf8`. Its documentation says that it succeeds exactly
/// when the bytes are valid UTF-8, and that the resulting `str` is those bytes;
/// the contract claims this, with vstd's `valid_utf8` as the meaning of "valid UTF-8".
#[verifier::external_body]
pub(crate) fn str_from_utf8(bytes: &[u8]) -> (r: Option<&str>)
    ensures
        r is Some <==> vstd::utf8::valid_utf8(bytes@),
        r matches Some(s) ==> s.spec_bytes() == bytes@,
{
    std::str::from_utf8(bytes).ok()
}

/// Converts UTF-8 bytes into a `String`; `None` when the bytes are not valid UTF-8.
pub fn string_from_utf8(bytes: &[u8]) -> (r: Option<String>)
    ensures
        r is Some <==> vstd::utf8::valid_utf8(bytes@),
        r matches Some(s) ==> vstd::utf8::encode_utf8(s@) == bytes@,
{
    match str_from_utf8(bytes) {
        Some(s) => Some(s.to_owned()),
        None => None,
    }
}

/// Bytes below 128 are valid UTF-8.
pub proof fn lemma_ascii_valid_utf8(bytes: Seq<u8>)
    requires
        forall|i: int| 0 <= i < bytes.len() ==> #[trigger] bytes[i] < 128,
    ensures
        vstd::utf8::valid_utf8(bytes),
{
    assert(bytes.subrange(0, 0) =~= Seq::<u8>::empty());
    assert(vstd::utf8::partial_valid_utf8(bytes, 0));
    assert forall|i: int| 0 <= 0 <= i < bytes.len() <= bytes.len() implies #[trigger]
        vstd::utf8::is_leading_byte_width_1(bytes[i]) by {}
    vstd::utf8::partial_valid_utf8_extend_ascii_block(bytes, 0, bytes.len() as int);
    assert(bytes.subrange(0, bytes.len() as int) =~= bytes);
}

/// The `String` spelled by ASCII bytes.
pub fn ascii_string(bytes: &[u8]) -> (s: String)
    requires
        forall|i: int| 0 <= i < bytes@.len() ==> #[trigger] bytes@[i] < 128,
    ensures
        vstd::utf8::encode_utf8(s@) == bytes@,
{
    proof {
        lemma_ascii_valid_utf8(bytes@);
    }
    match string_from_utf8(bytes) {
        Some(s) => s,
        None => {
            assert(false);
            String::new()
        },
    }
}

} // verus!
