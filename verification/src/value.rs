//! The values a tag can hold that have an orientation, and their reversal.

use crate::dna::{revcomp, revcomp_array, revcomp_string, revcomp_text};
use vstd::prelude::*;
use vstd::std_specs::iter::IteratorSpec;

verus! {

/// A tag value with an orientation: a typed numeric array or a text string.
///
/// Elements of a float array are held as their IEEE-754 bit patterns, so that a
/// rewritten array keeps every element bit for bit.
#[derive(Debug, PartialEq, Eq)]
pub enum TagValue {
    ArrayU8(Vec<u8>),
    ArrayU16(Vec<u16>),
    ArrayU32(Vec<u32>),
    ArrayI8(Vec<i8>),
    ArrayI16(Vec<i16>),
    ArrayI32(Vec<i32>),
    ArrayFloat(Vec<u32>),
    Text(String),
}

/// The mathematical value of a [`TagValue`].
pub enum TagValueView {
    ArrayU8(Seq<u8>),
    ArrayU16(Seq<u16>),
    ArrayU32(Seq<u32>),
    ArrayI8(Seq<i8>),
    ArrayI16(Seq<i16>),
    ArrayI32(Seq<i32>),
    ArrayFloat(Seq<u32>),
    Text(Seq<char>),
}

impl View for TagValue {
    type V = TagValueView;

    open spec fn view(&self) -> TagValueView {
        match self {
            TagValue::ArrayU8(v) => TagValueView::ArrayU8(v@),
            TagValue::ArrayU16(v) => TagValueView::ArrayU16(v@),
            TagValue::ArrayU32(v) => TagValueView::ArrayU32(v@),
            TagValue::ArrayI8(v) => TagValueView::ArrayI8(v@),
            TagValue::ArrayI16(v) => TagValueView::ArrayI16(v@),
            TagValue::ArrayI32(v) => TagValueView::ArrayI32(v@),
            TagValue::ArrayFloat(v) => TagValueView::ArrayFloat(v@),
            TagValue::Text(s) => TagValueView::Text(s@),
        }
    }
}

impl TagValueView {
    /// The same value read back to front: the elements of an array, or the
    /// characters of a text, in reverse order. The variant stays the same.
    pub open spec fn reversed(self) -> TagValueView {
        match self {
            TagValueView::ArrayU8(s) => TagValueView::ArrayU8(s.reverse()),
            TagValueView::ArrayU16(s) => TagValueView::ArrayU16(s.reverse()),
            TagValueView::ArrayU32(s) => TagValueView::ArrayU32(s.reverse()),
            TagValueView::ArrayI8(s) => TagValueView::ArrayI8(s.reverse()),
            TagValueView::ArrayI16(s) => TagValueView::ArrayI16(s.reverse()),
            TagValueView::ArrayI32(s) => TagValueView::ArrayI32(s.reverse()),
            TagValueView::ArrayFloat(s) => TagValueView::ArrayFloat(s.reverse()),
            TagValueView::Text(s) => TagValueView::Text(s.reverse()),
        }
    }

    /// The reverse complement of a value that can hold a nucleotide sequence:
    /// a text, or an array of unsigned bytes. No other value has one.
    pub open spec fn revcomplemented(self) -> Option<TagValueView> {
        match self {
            TagValueView::Text(s) => Some(TagValueView::Text(revcomp_text(s))),
            TagValueView::ArrayU8(s) => Some(TagValueView::ArrayU8(revcomp(s))),
            _ => None,
        }
    }
}

/// Reversing a sequence twice gives the sequence back.
pub proof fn lemma_reverse_involution<T>(s: Seq<T>)
    ensures
        s.reverse().reverse() == s,
        s.reverse().len() == s.len(),
{
    assert(s.reverse().reverse() =~= s);
}

/// Reversing a tag value twice gives the value back, whatever its variant.
pub proof fn lemma_reversed_involution(value: TagValueView)
    ensures
        value.reversed().reversed() == value,
{
    match value {
        TagValueView::ArrayU8(s) => lemma_reverse_involution(s),
        TagValueView::ArrayU16(s) => lemma_reverse_involution(s),
        TagValueView::ArrayU32(s) => lemma_reverse_involution(s),
        TagValueView::ArrayI8(s) => lemma_reverse_involution(s),
        TagValueView::ArrayI16(s) => lemma_reverse_involution(s),
        TagValueView::ArrayI32(s) => lemma_reverse_involution(s),
        TagValueView::ArrayFloat(s) => lemma_reverse_involution(s),
        TagValueView::Text(s) => lemma_reverse_involution(s),
    }
}

/// A new array with the elements of `values` in reverse order.
pub fn reverse_array<T: Copy>(values: &Vec<T>) -> (reversed: Vec<T>)
    ensures
        reversed@ == values@.reverse(),
{
    let n = values.len();
    let mut reversed: Vec<T> = Vec::with_capacity(n);
    let mut i: usize = n;
    while i > 0
        invariant
            i <= n,
            n == values@.len(),
            reversed@.len() == n - i,
            forall|k: int| 0 <= k < reversed@.len() ==> reversed@[k] == values@[n - 1 - k],
        decreases i,
    {
        i -= 1;
        reversed.push(values[i]);
    }
    assert(reversed@ =~= values@.reverse());
    reversed
}

/// A new string with the characters of `text` in reverse order.
pub fn reverse_text(text: &str) -> (reversed: String)
    ensures
        reversed@ == text@.reverse(),
{
    let mut chars: Vec<char> = Vec::new();
    for c in it: text.chars()
        invariant
            it.seq() == text@,
            chars@ =~= it.seq().take(it.index() as int),
    {
        chars.push(c);
    }
    let mut reversed = String::new();
    let n = chars.len();
    let mut i: usize = n;
    while i > 0
        invariant
            i <= n,
            n == chars@.len(),
            chars@ == text@,
            reversed@.len() == n - i,
            forall|k: int| 0 <= k < reversed@.len() ==> reversed@[k] == chars@[n - 1 - k],
        decreases i,
    {
        i -= 1;
        reversed.push(chars[i]);
    }
    assert(reversed@ =~= text@.reverse());
    reversed
}

/// The value read back to front, as a new value of the same variant.
pub fn reverse_value(value: &TagValue) -> (reversed: TagValue)
    ensures
        reversed@ == value@.reversed(),
{
    match value {
        TagValue::ArrayU8(v) => TagValue::ArrayU8(reverse_array(v)),
        TagValue::ArrayU16(v) => TagValue::ArrayU16(reverse_array(v)),
        TagValue::ArrayU32(v) => TagValue::ArrayU32(reverse_array(v)),
        TagValue::ArrayI8(v) => TagValue::ArrayI8(reverse_array(v)),
        TagValue::ArrayI16(v) => TagValue::ArrayI16(reverse_array(v)),
        TagValue::ArrayI32(v) => TagValue::ArrayI32(reverse_array(v)),
        TagValue::ArrayFloat(v) => TagValue::ArrayFloat(reverse_array(v)),
        TagValue::Text(s) => TagValue::Text(reverse_text(s.as_str())),
    }
}

/// The reverse complement of the value as a new value of the same variant,
/// where the value is a text or an array of unsigned bytes.
pub fn revcomp_value(value: &TagValue) -> (flipped: Option<TagValue>)
    ensures
        match flipped {
            Some(v) => value@.revcomplemented() == Some(v@),
            None => value@.revcomplemented() is None,
        },
{
    match value {
        TagValue::Text(s) => Some(TagValue::Text(revcomp_string(s.as_str()))),
        TagValue::ArrayU8(v) => Some(TagValue::ArrayU8(revcomp_array(v))),
        _ => None,
    }
}

/// `String::push` appends one character to the end of the string.
pub assume_specification[ String::push ](s: &mut String, c: char)
    ensures
        final(s)@ == old(s)@.push(c),
;

} // verus!
