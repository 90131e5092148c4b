//! The alignment record as this library sees it: its strand flag and its
//! auxiliary fields, reached through the accessors of `rust_htslib`.
//!
//! Nothing in this file is proved. The record is a value of the record
//! library; what its accessors do is stated here as that library's source
//! shows it, over four names: the fields that a record holds, whether its
//! block of fields can be walked to its end, its strand flag, and the rest of
//! it.

use crate::value::TagValueView;
use rust_htslib::bam::record::{Aux, AuxArrayElement};
use rust_htslib::bam::Record;
use rust_htslib::errors::Error;
use vstd::prelude::*;
use vstd::string::StringSliceAdditionalSpecFns;

verus! {

/// `rust_htslib::bam::Record`, an alignment record. Nothing of its inside is
/// known here.
#[verifier::external_type_specification]
#[verifier::external_body]
pub struct ExRecord(rust_htslib::bam::Record);

/// `rust_htslib::errors::Error`, the error of every accessor. Nothing of its
/// inside is known here.
#[verifier::external_type_specification]
#[verifier::external_body]
pub struct ExError(rust_htslib::errors::Error);

/// What one auxiliary field holds.
pub enum AuxValue {
    /// An array, or a string that is valid UTF-8. A string of either kind,
    /// `Z` or `H`, is the text in it; an element of a float array is its bit
    /// pattern.
    Held(TagValueView),
    /// Any other field: its type code and the bytes of its value as the
    /// record holds them.
    Other { code: u8, bytes: Seq<u8> },
}

/// One auxiliary field of a record: its two-byte tag and what it holds.
pub struct AuxField {
    pub tag: Seq<u8>,
    pub value: AuxValue,
}

/// The auxiliary fields of a record whose tag the accessors can look up, in
/// the order in which the record holds them, as far as its auxiliary block
/// can be walked from its first field on.
pub uninterp spec fn aux_fields(record: Record) -> Seq<AuxField>;

/// The auxiliary block of the record can be walked from its first field to
/// its end: every field has a type that tells its length and ends within the
/// block, and no byte is left over behind the last field. A record that was
/// built field by field is like this; one read from a file may not be.
pub uninterp spec fn reads_to_end(record: Record) -> bool;

/// Whether the record's flag marks it as aligned to the reverse strand.
pub uninterp spec fn reverse_strand(record: Record) -> bool;

/// Everything of a record but its auxiliary fields, as bytes: the core
/// fields (reference, position, flag, mapping quality, mate, template
/// length), then the name, the CIGAR, the sequence and the qualities.
pub uninterp spec fn fixed_part(record: Record) -> Seq<u8>;

/// A tag that the accessors can look up: two bytes, neither of them zero.
pub open spec fn addressable(tag: Seq<u8>) -> bool {
    tag.len() == 2 && tag[0] != 0 && tag[1] != 0
}

/// The index of the first field that carries `tag`, or the number of fields
/// where none does.
pub open spec fn position(fields: Seq<AuxField>, tag: Seq<u8>) -> int
    decreases fields.len(),
{
    if fields.len() == 0 || fields[0].tag == tag {
        0
    } else {
        1 + position(fields.drop_first(), tag)
    }
}

/// What the first field under `tag` holds, if a field carries the tag.
pub open spec fn entry(fields: Seq<AuxField>, tag: Seq<u8>) -> Option<AuxValue> {
    let i = position(fields, tag);
    if i < fields.len() {
        Some(fields[i].value)
    } else {
        None
    }
}

/// The array or text that the first field under `tag` holds, if there is such
/// a field and it holds one.
pub open spec fn lookup(fields: Seq<AuxField>, tag: Seq<u8>) -> Option<TagValueView> {
    match entry(fields, tag) {
        Some(AuxValue::Held(value)) => Some(value),
        _ => None,
    }
}

/// Some field carries `tag`.
pub open spec fn carried(fields: Seq<AuxField>, tag: Seq<u8>) -> bool {
    position(fields, tag) < fields.len()
}

/// `after` is `before` without its first field under `tag`, which exists.
/// Every other field and the rest of the record are as they were, and a
/// block that could be walked to its end still can.
pub open spec fn removed(before: Record, after: Record, tag: Seq<u8>) -> bool {
    let fields = aux_fields(before);
    &&& carried(fields, tag)
    &&& aux_fields(after) == fields.remove(position(fields, tag))
    &&& reverse_strand(after) == reverse_strand(before)
    &&& fixed_part(after) == fixed_part(before)
    &&& reads_to_end(before) ==> reads_to_end(after)
}

/// `after` is `before` with one more field at its end, which holds `value`
/// under `tag`. Every other field is as it was, and the block can again be
/// walked to its end.
pub open spec fn appended(before: Record, after: Record, tag: Seq<u8>, value: TagValueView) -> bool {
    &&& aux_fields(after) == aux_fields(before).push(AuxField { tag, value: AuxValue::Held(value) })
    &&& reads_to_end(after)
}

/// What an insert that succeeded has done. It has left the strand flag and
/// everything but the auxiliary fields as they were. On a record whose block
/// can be walked to its end and in which no field carried the tag, it has
/// appended the value. Nothing is said of the fields of another record.
pub open spec fn pushed(before: Record, after: Record, tag: Seq<u8>, value: TagValueView) -> bool {
    &&& reverse_strand(after) == reverse_strand(before)
    &&& reads_to_end(before) && !carried(aux_fields(before), tag) ==> appended(before, after, tag, value)
}

/// `Record::is_reverse` reads the reverse-strand bit of the record's flag.
#[verifier::external_body]
pub(crate) fn is_reverse(record: &Record) -> (reverse: bool)
    ensures
        reverse == reverse_strand(*record),
{
    record.is_reverse()
}

/// `Record::aux` finds the first field under `tag`. Where that is a `B:C`
/// array, this gives the array's elements in order; it gives `None` for any
/// other field, for a tag that no field carries and for a tag that cannot be
/// looked up.
#[verifier::external_body]
pub(crate) fn aux_array_u8(record: &Record, tag: &[u8; 2]) -> (values: Option<Vec<u8>>)
    ensures
        match values {
            Some(v) => lookup(aux_fields(*record), tag@) == Some(TagValueView::ArrayU8(v@)) && addressable(tag@),
            None => !(lookup(aux_fields(*record), tag@) matches Some(TagValueView::ArrayU8(_))),
        },
{
    match record.aux(tag) {
        Ok(Aux::ArrayU8(array)) => Some(array.iter().collect()),
        _ => None,
    }
}

/// `Record::aux` finds the first field under `tag`. Where that is a `B:S`
/// array, this gives the array's elements in order; it gives `None` for any
/// other field, for a tag that no field carries and for a tag that cannot be
/// looked up.
#[verifier::external_body]
pub(crate) fn aux_array_u16(record: &Record, tag: &[u8; 2]) -> (values: Option<Vec<u16>>)
    ensures
        match values {
            Some(v) => lookup(aux_fields(*record), tag@) == Some(TagValueView::ArrayU16(v@)) && addressable(tag@),
            None => !(lookup(aux_fields(*record), tag@) matches Some(TagValueView::ArrayU16(_))),
        },
{
    match record.aux(tag) {
        Ok(Aux::ArrayU16(array)) => Some(array.iter().collect()),
        _ => None,
    }
}

/// `Record::aux` finds the first field under `tag`. Where that is a `B:I`
/// array, this gives the array's elements in order; it gives `None` for any
/// other field, for a tag that no field carries and for a tag that cannot be
/// looked up.
#[verifier::external_body]
pub(crate) fn aux_array_u32(record: &Record, tag: &[u8; 2]) -> (values: Option<Vec<u32>>)
    ensures
        match values {
            Some(v) => lookup(aux_fields(*record), tag@) == Some(TagValueView::ArrayU32(v@)) && addressable(tag@),
            None => !(lookup(aux_fields(*record), tag@) matches Some(TagValueView::ArrayU32(_))),
        },
{
    match record.aux(tag) {
        Ok(Aux::ArrayU32(array)) => Some(array.iter().collect()),
        _ => None,
    }
}

/// `Record::aux` finds the first field under `tag`. Where that is a `B:c`
/// array, this gives the array's elements in order; it gives `None` for any
/// other field, for a tag that no field carries and for a tag that cannot be
/// looked up.
#[verifier::external_body]
pub(crate) fn aux_array_i8(record: &Record, tag: &[u8; 2]) -> (values: Option<Vec<i8>>)
    ensures
        match values {
            Some(v) => lookup(aux_fields(*record), tag@) == Some(TagValueView::ArrayI8(v@)) && addressable(tag@),
            None => !(lookup(aux_fields(*record), tag@) matches Some(TagValueView::ArrayI8(_))),
        },
{
    match record.aux(tag) {
        Ok(Aux::ArrayI8(array)) => Some(array.iter().collect()),
        _ => None,
    }
}

/// `Record::aux` finds the first field under `tag`. Where that is a `B:s`
/// array, this gives the array's elements in order; it gives `None` for any
/// other field, for a tag that no field carries and for a tag that cannot be
/// looked up.
#[verifier::external_body]
pub(crate) fn aux_array_i16(record: &Record, tag: &[u8; 2]) -> (values: Option<Vec<i16>>)
    ensures
        match values {
            Some(v) => lookup(aux_fields(*record), tag@) == Some(TagValueView::ArrayI16(v@)) && addressable(tag@),
            None => !(lookup(aux_fields(*record), tag@) matches Some(TagValueView::ArrayI16(_))),
        },
{
    match record.aux(tag) {
        Ok(Aux::ArrayI16(array)) => Some(array.iter().collect()),
        _ => None,
    }
}

/// `Record::aux` finds the first field under `tag`. Where that is a `B:i`
/// array, this gives the array's elements in order; it gives `None` for any
/// other field, for a tag that no field carries and for a tag that cannot be
/// looked up.
#[verifier::external_body]
pub(crate) fn aux_array_i32(record: &Record, tag: &[u8; 2]) -> (values: Option<Vec<i32>>)
    ensures
        match values {
            Some(v) => lookup(aux_fields(*record), tag@) == Some(TagValueView::ArrayI32(v@)) && addressable(tag@),
            None => !(lookup(aux_fields(*record), tag@) matches Some(TagValueView::ArrayI32(_))),
        },
{
    match record.aux(tag) {
        Ok(Aux::ArrayI32(array)) => Some(array.iter().collect()),
        _ => None,
    }
}

/// `Record::aux` finds the first field under `tag`. Where that is a `B:f`
/// array, this gives the bit patterns of the array's elements in order; it
/// gives `None` for any other field, for a tag that no field carries and for
/// a tag that cannot be looked up.
#[verifier::external_body]
pub(crate) fn aux_array_float(record: &Record, tag: &[u8; 2]) -> (values: Option<Vec<u32>>)
    ensures
        match values {
            Some(v) => lookup(aux_fields(*record), tag@) == Some(TagValueView::ArrayFloat(v@)) && addressable(
                tag@,
            ),
            None => !(lookup(aux_fields(*record), tag@) matches Some(TagValueView::ArrayFloat(_))),
        },
{
    match record.aux(tag) {
        Ok(Aux::ArrayFloat(array)) => Some(array.iter().map(|x| x.to_bits()).collect()),
        _ => None,
    }
}

/// `Record::aux` finds the first field under `tag`. Where that is a string
/// of valid UTF-8, this gives its text; it gives `None` for any other field,
/// for a tag that no field carries and for a tag that cannot be looked up.
#[verifier::external_body]
pub(crate) fn aux_text(record: &Record, tag: &[u8; 2]) -> (text: Option<String>)
    ensures
        match text {
            Some(s) => lookup(aux_fields(*record), tag@) == Some(TagValueView::Text(s@)) && addressable(tag@),
            None => !(lookup(aux_fields(*record), tag@) matches Some(TagValueView::Text(_))),
        },
{
    match record.aux(tag) {
        Ok(Aux::String(s)) => Some(s.to_string()),
        _ => None,
    }
}

/// `Record::remove_aux` succeeds where the tag can be looked up and a field
/// carries it: it then has deleted the first such field and left the rest of
/// the record as it was. It fails, and nothing is said of the record, where
/// the tag cannot be looked up or no field carries it.
#[verifier::external_body]
pub(crate) fn remove_aux(record: &mut Record, tag: &[u8; 2]) -> (result: Result<(), Error>)
    ensures
        result is Ok ==> removed(*old(record), *final(record), tag@),
        addressable(tag@) && carried(aux_fields(*old(record)), tag@) ==> result is Ok,
{
    record.remove_aux(tag)
}

/// `Record::aux` fails with `BamAuxTagNotFound` where the walk through the
/// block finds no field under the tag. For a tag that can be looked up, on a
/// record whose block can be walked to its end, this tells whether a field
/// carries the tag, readable or not.
#[verifier::external_body]
pub(crate) fn carries(record: &Record, tag: &[u8; 2]) -> (present: bool)
    ensures
        addressable(tag@) && reads_to_end(*record) ==> present == carried(aux_fields(*record), tag@),
{
    !matches!(record.aux(tag), Err(Error::BamAuxTagNotFound))
}

/// `Record::push_aux` with a `B:C` array. Where it succeeds on a record whose
/// block can be walked to its end and in which no field carries the tag, the
/// array stands behind the fields that the record had. The number of elements
/// is handed on as a `u32`. Nothing is said of a call that fails.
#[verifier::external_body]
pub(crate) fn push_array_u8(record: &mut Record, tag: &[u8; 2], values: &Vec<u8>) -> (result: Result<(), Error>)
    requires
        addressable(tag@),
        values@.len() <= u32::MAX,
    ensures
        result is Ok ==> pushed(*old(record), *final(record), tag@, TagValueView::ArrayU8(values@)),
        result is Ok ==> fixed_part(*final(record)) == fixed_part(*old(record)),
{
    record.push_aux(tag, Aux::ArrayU8(values.into()))
}

/// `Record::push_aux` with a `B:S` array. Where it succeeds on a record whose
/// block can be walked to its end and in which no field carries the tag, the
/// array stands behind the fields that the record had. The number of elements
/// is handed on as a `u32`. Nothing is said of a call that fails.
#[verifier::external_body]
pub(crate) fn push_array_u16(record: &mut Record, tag: &[u8; 2], values: &Vec<u16>) -> (result: Result<(), Error>)
    requires
        addressable(tag@),
        values@.len() <= u32::MAX,
    ensures
        result is Ok ==> pushed(*old(record), *final(record), tag@, TagValueView::ArrayU16(values@)),
        result is Ok ==> fixed_part(*final(record)) == fixed_part(*old(record)),
{
    record.push_aux(tag, Aux::ArrayU16(values.into()))
}

/// `Record::push_aux` with a `B:I` array. Where it succeeds on a record whose
/// block can be walked to its end and in which no field carries the tag, the
/// array stands behind the fields that the record had. The number of elements
/// is handed on as a `u32`. Nothing is said of a call that fails.
#[verifier::external_body]
pub(crate) fn push_array_u32(record: &mut Record, tag: &[u8; 2], values: &Vec<u32>) -> (result: Result<(), Error>)
    requires
        addressable(tag@),
        values@.len() <= u32::MAX,
    ensures
        result is Ok ==> pushed(*old(record), *final(record), tag@, TagValueView::ArrayU32(values@)),
        result is Ok ==> fixed_part(*final(record)) == fixed_part(*old(record)),
{
    record.push_aux(tag, Aux::ArrayU32(values.into()))
}

/// `Record::push_aux` with a `B:c` array. Where it succeeds on a record whose
/// block can be walked to its end and in which no field carries the tag, the
/// array stands behind the fields that the record had. The number of elements
/// is handed on as a `u32`. Nothing is said of a call that fails.
#[verifier::external_body]
pub(crate) fn push_array_i8(record: &mut Record, tag: &[u8; 2], values: &Vec<i8>) -> (result: Result<(), Error>)
    requires
        addressable(tag@),
        values@.len() <= u32::MAX,
    ensures
        result is Ok ==> pushed(*old(record), *final(record), tag@, TagValueView::ArrayI8(values@)),
        result is Ok ==> fixed_part(*final(record)) == fixed_part(*old(record)),
{
    record.push_aux(tag, Aux::ArrayI8(values.into()))
}

/// `Record::push_aux` with a `B:s` array. Where it succeeds on a record whose
/// block can be walked to its end and in which no field carries the tag, the
/// array stands behind the fields that the record had. The number of elements
/// is handed on as a `u32`. Nothing is said of a call that fails.
#[verifier::external_body]
pub(crate) fn push_array_i16(record: &mut Record, tag: &[u8; 2], values: &Vec<i16>) -> (result: Result<(), Error>)
    requires
        addressable(tag@),
        values@.len() <= u32::MAX,
    ensures
        result is Ok ==> pushed(*old(record), *final(record), tag@, TagValueView::ArrayI16(values@)),
        result is Ok ==> fixed_part(*final(record)) == fixed_part(*old(record)),
{
    record.push_aux(tag, Aux::ArrayI16(values.into()))
}

/// `Record::push_aux` with a `B:i` array. Where it succeeds on a record whose
/// block can be walked to its end and in which no field carries the tag, the
/// array stands behind the fields that the record had. The number of elements
/// is handed on as a `u32`. Nothing is said of a call that fails.
#[verifier::external_body]
pub(crate) fn push_array_i32(record: &mut Record, tag: &[u8; 2], values: &Vec<i32>) -> (result: Result<(), Error>)
    requires
        addressable(tag@),
        values@.len() <= u32::MAX,
    ensures
        result is Ok ==> pushed(*old(record), *final(record), tag@, TagValueView::ArrayI32(values@)),
        result is Ok ==> fixed_part(*final(record)) == fixed_part(*old(record)),
{
    record.push_aux(tag, Aux::ArrayI32(values.into()))
}

/// `Record::push_aux` with a `B:f` array, given by the bit patterns of its
/// elements, which `AuxArrayElement::from_le_bytes` turns into floats. Where
/// it succeeds on a record whose block can be walked to its end and in which
/// no field carries the tag, the array stands behind the fields that the
/// record had. The number of elements is handed on as a `u32`. Nothing is
/// said of a call that fails.
#[verifier::external_body]
pub(crate) fn push_array_float(record: &mut Record, tag: &[u8; 2], bits: &Vec<u32>) -> (result: Result<(), Error>)
    requires
        addressable(tag@),
        bits@.len() <= u32::MAX,
    ensures
        result is Ok ==> pushed(*old(record), *final(record), tag@, TagValueView::ArrayFloat(bits@)),
        result is Ok ==> fixed_part(*final(record)) == fixed_part(*old(record)),
{
    let values: Vec<_> =
        bits.iter().map(|b| AuxArrayElement::from_le_bytes(&b.to_le_bytes()).unwrap()).collect();
    record.push_aux(tag, Aux::ArrayFloat((&values).into()))
}

/// `Record::push_aux` with a string. Where it succeeds on a record whose
/// block can be walked to its end and in which no field carries the tag, the
/// text stands behind the fields that the record had. The number of bytes and
/// one more is handed on as an `i32`. Nothing is said of a call that fails.
#[verifier::external_body]
pub(crate) fn push_text(record: &mut Record, tag: &[u8; 2], text: &str) -> (result: Result<(), Error>)
    requires
        addressable(tag@),
        text.spec_bytes().len() < i32::MAX,
    ensures
        result is Ok ==> pushed(*old(record), *final(record), tag@, TagValueView::Text(text@)),
        result is Ok ==> fixed_part(*final(record)) == fixed_part(*old(record)),
{
    record.push_aux(tag, Aux::String(text))
}

} // verus!
