//! Reverse complement of nucleotide sequences, as bytes and as text.

use vstd::prelude::*;
use vstd::string::StringSliceAdditionalSpecFns;
use vstd::utf8::{
    decode_utf8, encode_utf8, encode_utf8_decode_utf8, encode_utf8_valid_utf8, is_ascii_chars,
    is_ascii_chars_encode_utf8, valid_utf8,
};

verus! {

/// The partner of an upper-case IUPAC nucleotide code. `W`, `S` and `N` pair
/// with themselves, as does every character that is no such code.
pub open spec fn paired_code(code: char) -> char {
    match code {
        'A' => 'T',
        'T' => 'A',
        'G' => 'C',
        'C' => 'G',
        'Y' => 'R',
        'R' => 'Y',
        'K' => 'M',
        'M' => 'K',
        'D' => 'H',
        'H' => 'D',
        'V' => 'B',
        'B' => 'V',
        _ => code,
    }
}

/// The complement of a nucleotide code of either case; the case is kept.
/// A byte that is no nucleotide code is its own complement.
pub open spec fn complement(symbol: u8) -> u8 {
    if 'a' as u8 <= symbol <= 'z' as u8 {
        (paired_code((symbol - 32) as u8 as char) as u8 + 32) as u8
    } else {
        paired_code(symbol as char) as u8
    }
}

/// The reverse complement: position `i` of the result holds the complement
/// of the symbol at position `i` from the end of `text`.
pub open spec fn revcomp(text: Seq<u8>) -> Seq<u8> {
    Seq::new(text.len(), |i: int| complement(text[text.len() - 1 - i]))
}

/// What lossy UTF-8 decoding makes of bytes that are not valid UTF-8.
pub uninterp spec fn utf8_repaired(bytes: Seq<u8>) -> Seq<char>;

/// Lossy UTF-8 decoding: valid bytes decode to the characters they encode,
/// other bytes to a repaired text.
pub open spec fn utf8_lossy(bytes: Seq<u8>) -> Seq<char> {
    if valid_utf8(bytes) {
        decode_utf8(bytes)
    } else {
        utf8_repaired(bytes)
    }
}

/// The reverse complement of a text: that of its UTF-8 bytes, decoded lossily.
pub open spec fn revcomp_text(text: Seq<char>) -> Seq<char> {
    utf8_lossy(revcomp(encode_utf8(text)))
}

/// The reverse complement of an ASCII text, character by character.
pub open spec fn revcomp_ascii(text: Seq<char>) -> Seq<char> {
    Seq::new(text.len(), |i: int| complement(text[text.len() - 1 - i] as u8) as char)
}

/// Complementing twice gives the symbol back, and the complement of an ASCII
/// byte is an ASCII byte.
pub proof fn lemma_complement_involution(symbol: u8)
    ensures
        complement(complement(symbol)) == symbol,
        symbol < 128 <==> complement(symbol) < 128,
{
}

/// The reverse complement keeps the length, and taking it twice gives the
/// sequence back.
pub proof fn lemma_revcomp_involution(text: Seq<u8>)
    ensures
        revcomp(text).len() == text.len(),
        revcomp(revcomp(text)) == text,
{
    assert forall|i: int| 0 <= i < text.len() implies revcomp(revcomp(text))[i] == text[i] by {
        lemma_complement_involution(text[i]);
    }
    assert(revcomp(revcomp(text)) =~= text);
}

/// On an ASCII text the reverse complement is taken character by character,
/// and is again an ASCII text of the same length.
pub proof fn lemma_revcomp_text_ascii(text: Seq<char>)
    requires
        is_ascii_chars(text),
    ensures
        revcomp_text(text) == revcomp_ascii(text),
        is_ascii_chars(revcomp_text(text)),
        revcomp_text(text).len() == text.len(),
{
    let bytes = encode_utf8(text);
    let out = revcomp_ascii(text);
    is_ascii_chars_encode_utf8(text);
    assert forall|i: int| 0 <= i < out.len() implies '\0' <= #[trigger] out[i] <= '\u{7f}' && out[i] as u8
        == revcomp(bytes)[i] by {
        lemma_complement_involution(text[text.len() - 1 - i] as u8);
    }
    is_ascii_chars_encode_utf8(out);
    assert(encode_utf8(out) =~= revcomp(bytes));
    encode_utf8_valid_utf8(out);
    encode_utf8_decode_utf8(out);
}

/// On an ASCII text, taking the reverse complement twice gives the text back.
pub proof fn lemma_revcomp_text_involution(text: Seq<char>)
    requires
        is_ascii_chars(text),
    ensures
        revcomp_text(revcomp_text(text)) == text,
{
    lemma_revcomp_text_ascii(text);
    let once = revcomp_text(text);
    lemma_revcomp_text_ascii(once);
    assert forall|i: int| 0 <= i < text.len() implies revcomp_ascii(once)[i] == text[i] by {
        lemma_complement_involution(text[i] as u8);
    }
    assert(revcomp_ascii(once) =~= text);
}

/// `bio::alphabets::dna::revcomp` walks the text from its end and maps each
/// byte through the crate's complement table, which pairs the IUPAC codes in
/// both cases and leaves every other byte as it is.
#[verifier::external_body]
pub(crate) fn revcomp_bytes(text: &[u8]) -> (out: Vec<u8>)
    ensures
        out@ == revcomp(text@),
{
    bio::alphabets::dna::revcomp(text)
}

/// `String::from_utf8_lossy` returns valid UTF-8 as the text it encodes, and
/// replaces what is invalid in other input; what it puts there is left to
/// `utf8_repaired`.
#[verifier::external_body]
pub(crate) fn text_from_utf8_lossy(bytes: &[u8]) -> (text: String)
    ensures
        valid_utf8(bytes@) ==> text@ == decode_utf8(bytes@),
        !valid_utf8(bytes@) ==> text@ == utf8_repaired(bytes@),
{
    String::from_utf8_lossy(bytes).into_owned()
}

/// The reverse complement of a byte sequence.
pub fn revcomp_array(values: &Vec<u8>) -> (out: Vec<u8>)
    ensures
        out@ == revcomp(values@),
{
    revcomp_bytes(values.as_slice())
}

/// The reverse complement of a text, taken over its bytes.
pub fn revcomp_string(text: &str) -> (out: String)
    ensures
        out@ == revcomp_text(text@),
{
    let flipped = revcomp_bytes(text.as_bytes());
    text_from_utf8_lossy(flipped.as_slice())
}

} // verus!
