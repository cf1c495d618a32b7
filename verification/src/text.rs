//! Text in the bytes that a device sends.

use std::str::Utf8Error;

use vstd::prelude::*;
use vstd::utf8::{
    decode_utf8, encode_utf8, encode_utf8_decode_utf8, encode_utf8_valid_utf8, valid_utf8,
};

verus! {

/// The error of std's UTF-8 check, passed on as it is.
#[verifier::external_type_specification]
#[verifier::external_body]
pub struct ExUtf8Error(Utf8Error);

/// The error that `std::str::from_utf8` gives on bytes that are not valid UTF-8. It says where
/// the valid part ends, which is left to std here.
pub uninterp spec fn utf8_error(bytes: Seq<u8>) -> Utf8Error;

/// `std::str::from_utf8` succeeds exactly on valid UTF-8, and then gives the text that the bytes
/// encode. Otherwise it gives an error that depends on the bytes alone.
pub assume_specification[ std::str::from_utf8 ](v: &[u8]) -> (res: Result<&str, Utf8Error>)
    ensures
        res is Ok <==> valid_utf8(v@),
        res matches Ok(text) ==> text@ == decode_utf8(v@),
        res matches Err(error) ==> error == utf8_error(v@),
;

/// `str::replace` of one character by nothing gives the text without that character, the others
/// in their order.
#[verifier::external_body]
fn remove_char(text: &str, removed: char) -> (rest: String)
    ensures
        rest@ == text@.filter(|c: char| c != removed),
{
    text.replace(removed, "")
}

/// Extracts string from byte array, removing \0 symbols
pub fn extract_str(bytes: &[u8]) -> (res: Result<String, Utf8Error>)
    ensures
        res is Ok <==> valid_utf8(bytes@),
        res matches Ok(text) ==> text@ == decode_utf8(bytes@).filter(|c: char| c != '\0'),
        res matches Err(error) ==> error == utf8_error(bytes@),
{
    match std::str::from_utf8(bytes) {
        Ok(text) => Ok(remove_char(text, '\0')),
        Err(error) => Err(error),
    }
}

/// No \0 symbol is left in an extracted text.
pub proof fn law_no_nul_left(bytes: Seq<u8>)
    ensures
        !decode_utf8(bytes).filter(|c: char| c != '\0').contains('\0'),
{
    broadcast use vstd::seq_lib::group_filter_ensures;

    let kept = decode_utf8(bytes).filter(|c: char| c != '\0');
    assert forall|i: int| 0 <= i < kept.len() implies kept[i] != '\0' by {}
}

/// A text without \0 symbols is extracted from its bytes as it is.
pub proof fn law_text_kept(text: Seq<char>)
    requires
        !text.contains('\0'),
    ensures
        valid_utf8(encode_utf8(text)),
        decode_utf8(encode_utf8(text)).filter(|c: char| c != '\0') == text,
{
    encode_utf8_valid_utf8(text);
    encode_utf8_decode_utf8(text);
    lemma_filter_keeps(text);
}

proof fn lemma_filter_keeps(text: Seq<char>)
    requires
        !text.contains('\0'),
    ensures
        text.filter(|c: char| c != '\0') == text,
    decreases text.len(),
{
    reveal(Seq::filter);
    if text.len() > 0 {
        assert(text[text.len() - 1] == text.last());
        assert forall|i: int| 0 <= i < text.len() - 1 implies text.drop_last()[i] != '\0' by {
            assert(text[i] == text.drop_last()[i]);
        }
        lemma_filter_keeps(text.drop_last());
        assert(text.drop_last().push(text.last()) =~= text);
    }
}

/// \0 symbols at the ends of a text, such as pad it to a fixed size, are dropped, and the text
/// between them is extracted as it is.
pub proof fn law_padding_dropped(before: nat, text: Seq<char>, after: nat)
    requires
        !text.contains('\0'),
    ensures
        ({
            let padded = Seq::new(before, |i: int| '\0') + text + Seq::new(after, |i: int| '\0');
            &&& valid_utf8(encode_utf8(padded))
            &&& decode_utf8(encode_utf8(padded)).filter(|c: char| c != '\0') == text
        }),
{
    let kept = |c: char| c != '\0';
    let left = Seq::new(before, |i: int| '\0');
    let right = Seq::new(after, |i: int| '\0');
    let padded = left + text + right;
    encode_utf8_valid_utf8(padded);
    encode_utf8_decode_utf8(padded);
    Seq::filter_distributes_over_add(left + text, right, kept);
    Seq::filter_distributes_over_add(left, text, kept);
    lemma_filter_keeps(text);
    lemma_filter_drops(left);
    lemma_filter_drops(right);
    assert(left.filter(kept) + text + right.filter(kept) =~= text);
}

proof fn lemma_filter_drops(padding: Seq<char>)
    requires
        forall|i: int| 0 <= i < padding.len() ==> padding[i] == '\0',
    ensures
        padding.filter(|c: char| c != '\0') == Seq::<char>::empty(),
    decreases padding.len(),
{
    reveal(Seq::filter);
    if padding.len() > 0 {
        lemma_filter_drops(padding.drop_last());
    }
    assert(padding.filter(|c: char| c != '\0') =~= Seq::<char>::empty());
}

} // verus!
