//! The tag transform: rewrites the selected tags of one record in place.

use crate::error::{MutationFailure, TagError};
use crate::record::{
    addressable, aux_array_float, aux_array_i16, aux_array_i32, aux_array_i8, aux_array_u16,
    aux_array_u32, aux_array_u8, aux_fields, aux_text, carried, carries, fixed_part, is_reverse, lookup,
    position, push_array_float, push_array_i16, push_array_i32, push_array_i8, push_array_u16,
    push_array_u32, push_array_u8, push_text, pushed, reads_to_end, remove_aux, reverse_strand, AuxField,
    AuxValue,
};
use crate::value::{reverse_value, revcomp_value, TagValue, TagValueView};
use rust_htslib::bam::Record;
use vstd::prelude::*;
use vstd::string::StringSliceAdditionalSpecFns;
use vstd::utf8::encode_utf8;

verus! {

/// The fields after the value under `tag` was replaced by `value`: the first
/// field under `tag` is gone and a field with the new value stands last.
pub open spec fn rewrite(fields: Seq<AuxField>, tag: Seq<u8>, value: TagValueView) -> Seq<AuxField> {
    fields.remove(position(fields, tag)).push(AuxField { tag, value: AuxValue::Held(value) })
}

/// One step of the reverse pass: an array or text under `tag` is replaced by
/// its reversal; without one the fields stay as they are.
pub open spec fn reverse_step(fields: Seq<AuxField>, tag: Seq<u8>) -> Seq<AuxField> {
    match lookup(fields, tag) {
        Some(value) => rewrite(fields, tag, value.reversed()),
        None => fields,
    }
}

/// What one step of the reverse-complement pass puts under `tag`, if it
/// rewrites the tag at all: the reverse complement of a text or of an array
/// of unsigned bytes.
pub open spec fn revcomp_target(fields: Seq<AuxField>, tag: Seq<u8>) -> Option<TagValueView> {
    match lookup(fields, tag) {
        Some(value) => value.revcomplemented(),
        None => None,
    }
}

/// One step of the reverse-complement pass.
pub open spec fn revcomp_step(fields: Seq<AuxField>, tag: Seq<u8>) -> Seq<AuxField> {
    match revcomp_target(fields, tag) {
        Some(value) => rewrite(fields, tag, value),
        None => fields,
    }
}

/// A pass: one step for each tag, in the order given, each on what the steps
/// before it left.
pub open spec fn pass(
    step: spec_fn(Seq<AuxField>, Seq<u8>) -> Seq<AuxField>,
    fields: Seq<AuxField>,
    tags: Seq<[u8; 2]>,
) -> Seq<AuxField>
    decreases tags.len(),
{
    if tags.len() == 0 {
        fields
    } else {
        step(pass(step, fields, tags.drop_last()), tags.last()@)
    }
}

/// The reverse pass: one reverse step for each tag, in the order given.
pub open spec fn reverse_pass(fields: Seq<AuxField>, tags: Seq<[u8; 2]>) -> Seq<AuxField> {
    pass(|f: Seq<AuxField>, t: Seq<u8>| reverse_step(f, t), fields, tags)
}

/// The reverse-complement pass: one reverse-complement step for each tag, in
/// the order given.
pub open spec fn revcomp_pass(fields: Seq<AuxField>, tags: Seq<[u8; 2]>) -> Seq<AuxField> {
    pass(|f: Seq<AuxField>, t: Seq<u8>| revcomp_step(f, t), fields, tags)
}

/// The whole transform: the reverse pass, then the reverse-complement pass
/// over what the reverse pass left.
pub open spec fn transformed(fields: Seq<AuxField>, rev: Seq<[u8; 2]>, revcomp: Seq<[u8; 2]>) -> Seq<
    AuxField,
> {
    revcomp_pass(reverse_pass(fields, rev), revcomp)
}

/// No tag of `rev` holds an array or a text, and no tag of `revcomp` holds a
/// text or an array of unsigned bytes: the transform has nothing to rewrite.
pub open spec fn nothing_selected(fields: Seq<AuxField>, rev: Seq<[u8; 2]>, revcomp: Seq<[u8; 2]>) -> bool {
    &&& forall|i: int| 0 <= i < rev.len() ==> lookup(fields, #[trigger] rev[i]@) is None
    &&& forall|i: int| 0 <= i < revcomp.len() ==> revcomp_target(fields, #[trigger] revcomp[i]@) is None
}

/// A tag that no field carries is looked up in vain, and neither pass changes
/// the fields on its account.
pub proof fn lemma_absent_tag(fields: Seq<AuxField>, tag: Seq<u8>)
    requires
        forall|i: int| 0 <= i < fields.len() ==> (#[trigger] fields[i]).tag != tag,
    ensures
        position(fields, tag) == fields.len(),
        lookup(fields, tag) is None,
        reverse_step(fields, tag) == fields,
        revcomp_step(fields, tag) == fields,
    decreases fields.len(),
{
    if fields.len() > 0 {
        let rest = fields.drop_first();
        assert forall|i: int| 0 <= i < rest.len() implies (#[trigger] rest[i]).tag != tag by {
            assert(rest[i] == fields[i + 1]);
        }
        lemma_absent_tag(rest, tag);
    }
}

/// A record without fields has nothing to rewrite, whatever is selected.
pub proof fn lemma_no_fields_select_nothing(rev: Seq<[u8; 2]>, revcomp: Seq<[u8; 2]>)
    ensures
        nothing_selected(Seq::<AuxField>::empty(), rev, revcomp),
{
}

/// With empty selections there is nothing to rewrite, whatever the record
/// holds.
pub proof fn lemma_empty_selection_selects_nothing(fields: Seq<AuxField>)
    ensures
        nothing_selected(fields, Seq::<[u8; 2]>::empty(), Seq::<[u8; 2]>::empty()),
{
}

/// Where there is nothing to rewrite, the transform gives the fields back.
pub proof fn lemma_nothing_selected_is_identity(fields: Seq<AuxField>, rev: Seq<[u8; 2]>, revcomp: Seq<[u8; 2]>)
    requires
        nothing_selected(fields, rev, revcomp),
    ensures
        transformed(fields, rev, revcomp) == fields,
{
    lemma_idle_pass(|f: Seq<AuxField>, t: Seq<u8>| reverse_step(f, t), fields, rev);
    lemma_idle_pass(|f: Seq<AuxField>, t: Seq<u8>| revcomp_step(f, t), fields, revcomp);
}

/// A pass whose every step leaves the fields as they are leaves them as they
/// are.
pub proof fn lemma_idle_pass(
    step: spec_fn(Seq<AuxField>, Seq<u8>) -> Seq<AuxField>,
    fields: Seq<AuxField>,
    tags: Seq<[u8; 2]>,
)
    requires
        forall|i: int| 0 <= i < tags.len() ==> step(fields, #[trigger] tags[i]@) == fields,
    ensures
        pass(step, fields, tags) == fields,
    decreases tags.len(),
{
    if tags.len() > 0 {
        let init = tags.drop_last();
        assert forall|i: int| 0 <= i < init.len() implies step(fields, #[trigger] init[i]@) == fields by {
            assert(init[i] == tags[i]);
        }
        lemma_idle_pass(step, fields, init);
        assert(tags.last() == tags[tags.len() - 1]);
    }
}

/// A value that a record can take: an array of at most `u32::MAX` elements,
/// or a text of fewer than `i32::MAX` bytes.
pub open spec fn storable(value: TagValueView) -> bool {
    match value {
        TagValueView::ArrayU8(s) => s.len() <= u32::MAX,
        TagValueView::ArrayU16(s) => s.len() <= u32::MAX,
        TagValueView::ArrayU32(s) => s.len() <= u32::MAX,
        TagValueView::ArrayI8(s) => s.len() <= u32::MAX,
        TagValueView::ArrayI16(s) => s.len() <= u32::MAX,
        TagValueView::ArrayI32(s) => s.len() <= u32::MAX,
        TagValueView::ArrayFloat(s) => s.len() <= u32::MAX,
        TagValueView::Text(s) => encode_utf8(s).len() < i32::MAX,
    }
}

/// The array or text that the record holds under `tag`, if it holds one.
/// The kinds are tried in a fixed order: the unsigned arrays, the signed
/// arrays, the float array, then text.
pub fn read_value(record: &Record, tag: &[u8; 2]) -> (value: Option<TagValue>)
    ensures
        match value {
            Some(v) => lookup(aux_fields(*record), tag@) == Some(v@) && addressable(tag@),
            None => lookup(aux_fields(*record), tag@) is None,
        },
{
    if let Some(v) = aux_array_u8(record, tag) {
        return Some(TagValue::ArrayU8(v));
    }
    if let Some(v) = aux_array_u16(record, tag) {
        return Some(TagValue::ArrayU16(v));
    }
    if let Some(v) = aux_array_u32(record, tag) {
        return Some(TagValue::ArrayU32(v));
    }
    if let Some(v) = aux_array_i8(record, tag) {
        return Some(TagValue::ArrayI8(v));
    }
    if let Some(v) = aux_array_i16(record, tag) {
        return Some(TagValue::ArrayI16(v));
    }
    if let Some(v) = aux_array_i32(record, tag) {
        return Some(TagValue::ArrayI32(v));
    }
    if let Some(v) = aux_array_float(record, tag) {
        return Some(TagValue::ArrayFloat(v));
    }
    if let Some(s) = aux_text(record, tag) {
        return Some(TagValue::Text(s));
    }
    None
}

/// Whether a record can take the value.
pub fn is_storable(value: &TagValue) -> (fits: bool)
    ensures
        fits == storable(value@),
{
    match value {
        TagValue::ArrayU8(v) => fits_u32(v.len()),
        TagValue::ArrayU16(v) => fits_u32(v.len()),
        TagValue::ArrayU32(v) => fits_u32(v.len()),
        TagValue::ArrayI8(v) => fits_u32(v.len()),
        TagValue::ArrayI16(v) => fits_u32(v.len()),
        TagValue::ArrayI32(v) => fits_u32(v.len()),
        TagValue::ArrayFloat(v) => fits_u32(v.len()),
        TagValue::Text(s) => s.as_str().as_bytes().len() < 0x7fff_ffff,
    }
}

/// Whether a length can be written as a `u32`.
fn fits_u32(len: usize) -> (fits: bool)
    ensures
        fits == (len <= u32::MAX),
{
    len as u64 <= 0xffff_ffff
}

/// Hands `value` to the record, to stand under `tag`. Fails where the record
/// refuses the value.
pub(crate) fn write_value(record: &mut Record, tag: &[u8; 2], value: &TagValue) -> (result: Result<
    (),
    TagError,
>)
    requires
        addressable(tag@),
        storable(value@),
    ensures
        match result {
            Ok(()) => pushed(*old(record), *final(record), tag@, value@) && fixed_part(*final(record))
                == fixed_part(*old(record)),
            Err(e) => e matches TagError::TagMutationFailure { tag: t, cause } && t == *tag && cause is Insert,
        },
{
    let outcome = match value {
        TagValue::ArrayU8(v) => push_array_u8(record, tag, v),
        TagValue::ArrayU16(v) => push_array_u16(record, tag, v),
        TagValue::ArrayU32(v) => push_array_u32(record, tag, v),
        TagValue::ArrayI8(v) => push_array_i8(record, tag, v),
        TagValue::ArrayI16(v) => push_array_i16(record, tag, v),
        TagValue::ArrayI32(v) => push_array_i32(record, tag, v),
        TagValue::ArrayFloat(v) => push_array_float(record, tag, v),
        TagValue::Text(s) => push_text(record, tag, s.as_str()),
    };
    match outcome {
        Ok(()) => Ok(()),
        Err(e) => Err(TagError::TagMutationFailure { tag: *tag, cause: MutationFailure::Insert(e) }),
    }
}

/// Besides its first field under `tag`, another field carries the tag.
pub open spec fn carried_again(fields: Seq<AuxField>, tag: Seq<u8>) -> bool {
    carried(fields.remove(position(fields, tag)), tag)
}

/// Replaces the array or text under `tag` by `value`.
///
/// A value that is too long for a record ends the call before the record is
/// touched. Else the first field under the tag is removed. Where another
/// field still carries the tag, the call ends there: a value is inserted
/// only under a tag that no field carries. Else the new value is handed to
/// the record, which may refuse it.
pub(crate) fn replace_value(record: &mut Record, tag: &[u8; 2], value: &TagValue) -> (result: Result<
    (),
    TagError,
>)
    requires
        addressable(tag@),
        lookup(aux_fields(*old(record)), tag@) is Some,
    ensures
        match result {
            Ok(()) => {
                &&& storable(value@)
                &&& reverse_strand(*final(record)) == reverse_strand(*old(record))
                &&& fixed_part(*final(record)) == fixed_part(*old(record))
                &&& reads_to_end(*old(record)) ==> {
                    &&& !carried_again(aux_fields(*old(record)), tag@)
                    &&& aux_fields(*final(record)) == rewrite(aux_fields(*old(record)), tag@, value@)
                    &&& reads_to_end(*final(record))
                }
            },
            Err(e) => {
                &&& e matches TagError::TagMutationFailure { tag: t, cause } && t == *tag && !(cause is Remove)
                    && (cause is TooLong <==> !storable(value@))
                &&& reads_to_end(*old(record)) ==> (e matches TagError::TagMutationFailure { cause, .. }
                    && (cause is StillPresent <==> storable(value@) && carried_again(
                    aux_fields(*old(record)),
                    tag@,
                )))
            },
        },
        !storable(value@) ==> result is Err && *final(record) == *old(record),
{
    if !is_storable(value) {
        return Err(TagError::TagMutationFailure { tag: *tag, cause: MutationFailure::TooLong });
    }
    match remove_aux(record, tag) {
        Ok(()) => {},
        Err(e) => {
            return Err(TagError::TagMutationFailure { tag: *tag, cause: MutationFailure::Remove(e) });
        },
    }
    if carries(record, tag) {
        return Err(TagError::TagMutationFailure { tag: *tag, cause: MutationFailure::StillPresent });
    }
    write_value(record, tag, value)
}

/// What step `i` of the reverse pass finds under its tag when it comes to
/// it: the fields as the steps before it left them.
pub open spec fn before_reverse_step(fields: Seq<AuxField>, rev: Seq<[u8; 2]>, i: int) -> Seq<AuxField> {
    reverse_pass(fields, rev.take(i))
}

/// What step `k` of the reverse-complement pass finds when it comes to it.
pub open spec fn before_revcomp_step(fields: Seq<AuxField>, revcomp: Seq<[u8; 2]>, k: int) -> Seq<AuxField> {
    revcomp_pass(fields, revcomp.take(k))
}

/// Step `i` of the reverse pass has a value that a record can take: the
/// reversal of the array or text under its tag, if there is one.
pub open spec fn reverse_fits(fields: Seq<AuxField>, rev: Seq<[u8; 2]>, i: int) -> bool {
    match lookup(before_reverse_step(fields, rev, i), rev[i]@) {
        Some(value) => storable(value.reversed()),
        None => true,
    }
}

/// Step `k` of the reverse-complement pass has a value that a record can
/// take: the reverse complement of the text or unsigned bytes under its tag,
/// if there are any.
pub open spec fn revcomp_fits(fields: Seq<AuxField>, revcomp: Seq<[u8; 2]>, k: int) -> bool {
    match revcomp_target(before_revcomp_step(fields, revcomp, k), revcomp[k]@) {
        Some(value) => storable(value),
        None => true,
    }
}

/// Step `i` of the reverse pass finds its tag on one field only, if it finds
/// an array or text under it.
pub open spec fn reverse_single(fields: Seq<AuxField>, rev: Seq<[u8; 2]>, i: int) -> bool {
    lookup(before_reverse_step(fields, rev, i), rev[i]@) is Some ==> !carried_again(
        before_reverse_step(fields, rev, i),
        rev[i]@,
    )
}

/// Step `k` of the reverse-complement pass finds its tag on one field only,
/// if it finds a text or unsigned bytes under it.
pub open spec fn revcomp_single(fields: Seq<AuxField>, revcomp: Seq<[u8; 2]>, k: int) -> bool {
    revcomp_target(before_revcomp_step(fields, revcomp, k), revcomp[k]@) is Some ==> !carried_again(
        before_revcomp_step(fields, revcomp, k),
        revcomp[k]@,
    )
}

/// Every step of the transform can be taken: its value is one that a record
/// can take, and its tag stands on one field only.
pub open spec fn all_steps_free(fields: Seq<AuxField>, rev: Seq<[u8; 2]>, revcomp: Seq<[u8; 2]>) -> bool {
    &&& forall|i: int| 0 <= i < rev.len() ==> #[trigger] reverse_fits(fields, rev, i)
    &&& forall|i: int| 0 <= i < rev.len() ==> #[trigger] reverse_single(fields, rev, i)
    &&& forall|k: int| 0 <= k < revcomp.len() ==> #[trigger] revcomp_fits(reverse_pass(fields, rev), revcomp, k)
    &&& forall|k: int|
        0 <= k < revcomp.len() ==> #[trigger] revcomp_single(reverse_pass(fields, rev), revcomp, k)
}

/// The transform meets a value that is too long for a record at `tag`: in a
/// step of the reverse pass for this tag, or in a step of the
/// reverse-complement pass for it.
pub open spec fn too_long_at(fields: Seq<AuxField>, rev: Seq<[u8; 2]>, revcomp: Seq<[u8; 2]>, tag: [u8; 2]) -> bool {
    ||| exists|i: int| 0 <= i < rev.len() && rev[i] == tag && !#[trigger] reverse_fits(fields, rev, i)
    ||| exists|k: int|
        0 <= k < revcomp.len() && revcomp[k] == tag && !#[trigger] revcomp_fits(
            reverse_pass(fields, rev),
            revcomp,
            k,
        )
}

/// The transform meets `tag` on more than one field: in a step of the
/// reverse pass for this tag, or in a step of the reverse-complement pass
/// for it.
pub open spec fn still_present_at(fields: Seq<AuxField>, rev: Seq<[u8; 2]>, revcomp: Seq<[u8; 2]>, tag: [
    u8; 2
]) -> bool {
    ||| exists|i: int| 0 <= i < rev.len() && rev[i] == tag && !#[trigger] reverse_single(fields, rev, i)
    ||| exists|k: int|
        0 <= k < revcomp.len() && revcomp[k] == tag && !#[trigger] revcomp_single(
            reverse_pass(fields, rev),
            revcomp,
            k,
        )
}

/// How a transform that stopped relates to the record that came in. It
/// stopped at a selected tag and not for a failed removal. On a record whose
/// block can be walked to its end (`walkable`), it stopped for a value that
/// is too long only where the transform meets such a value at that tag, and
/// for a tag that is still present only where the transform meets that tag
/// on more than one field.
pub open spec fn stopped_at(
    fields: Seq<AuxField>,
    walkable: bool,
    rev: Seq<[u8; 2]>,
    revcomp: Seq<[u8; 2]>,
    error: TagError,
) -> bool {
    &&& error matches TagError::TagMutationFailure { tag, cause } && (rev.contains(tag) || revcomp.contains(tag))
        && !(cause is Remove) && (walkable && cause is TooLong ==> too_long_at(fields, rev, revcomp, tag))
        && (walkable && cause is StillPresent ==> still_present_at(fields, rev, revcomp, tag))
    &&& !nothing_selected(fields, rev, revcomp)
}

/// What a transform that went through has made of the record that came in.
/// The strand flag and everything but the auxiliary fields are as they were.
/// On a record whose block can be walked to its end, the fields are the
/// transformed ones, every step could be taken, and the block can still be
/// walked to its end.
pub open spec fn went_through(before: Record, after: Record, rev: Seq<[u8; 2]>, revcomp: Seq<[u8; 2]>) -> bool {
    &&& reverse_strand(after) == reverse_strand(before)
    &&& fixed_part(after) == fixed_part(before)
    &&& reads_to_end(before) ==> {
        &&& aux_fields(after) == transformed(aux_fields(before), rev, revcomp)
        &&& all_steps_free(aux_fields(before), rev, revcomp)
        &&& reads_to_end(after)
    }
}

/// Rewrites the tags of `rev` and `revcomp` on one record, in place.
///
/// The tags of `rev` are taken first, in order: an array or text under the
/// tag is replaced by its reversal. Then the tags of `revcomp`, in order: a
/// text or an array of unsigned bytes under the tag is replaced by its
/// reverse complement, taken of what the first pass left. A tag that the
/// record lacks, or that holds another kind of value, is passed over.
///
/// The call stops at the first replacement that cannot be made, naming the
/// tag: the new value is too long for a record, another field carries the
/// tag too, or the record refuses the value. Where there is nothing to
/// replace, it succeeds and the record is the one that came in. A call that
/// succeeds has changed nothing but auxiliary fields.
pub fn reverse_tags_for(record: &mut Record, rev: &[[u8; 2]], revcomp: &[[u8; 2]]) -> (result: Result<
    (),
    TagError,
>)
    ensures
        match result {
            Ok(()) => went_through(*old(record), *final(record), rev@, revcomp@),
            Err(e) => stopped_at(aux_fields(*old(record)), reads_to_end(*old(record)), rev@, revcomp@, e),
        },
        nothing_selected(aux_fields(*old(record)), rev@, revcomp@) ==> *final(record) == *old(record),
        rev@.len() == 0 && revcomp@.len() == 0 ==> result is Ok && *final(record) == *old(record),
{
    let ghost before = *record;
    let mut i: usize = 0;
    while i < rev.len()
        invariant
            i <= rev@.len(),
            before == *old(record),
            reverse_strand(*record) == reverse_strand(before),
            fixed_part(*record) == fixed_part(before),
            reads_to_end(before) ==> {
                &&& reads_to_end(*record)
                &&& aux_fields(*record) == reverse_pass(aux_fields(before), rev@.take(i as int))
                &&& forall|j: int| 0 <= j < i ==> #[trigger] reverse_fits(aux_fields(before), rev@, j)
                &&& forall|j: int| 0 <= j < i ==> #[trigger] reverse_single(aux_fields(before), rev@, j)
            },
            (forall|j: int| 0 <= j < i ==> lookup(aux_fields(before), #[trigger] rev@[j]@) is None) ==> *record
                == before,
        decreases rev@.len() - i,
    {
        let tag = &rev[i];
        proof {
            assert(rev@.take(i + 1).drop_last() =~= rev@.take(i as int));
            assert(rev@.take(i + 1).last() == rev@[i as int]);
        }
        if let Some(value) = read_value(record, tag) {
            let reversed = reverse_value(&value);
            let ghost seen = aux_fields(*record);
            if let Err(e) = replace_value(record, tag, &reversed) {
                assert(rev@[i as int] == *tag);
                assert(lookup(seen, rev@[i as int]@) == Some(value@));
                assert(reads_to_end(before) && !storable(reversed@) ==> !reverse_fits(
                    aux_fields(before),
                    rev@,
                    i as int,
                ));
                assert(reads_to_end(before) && carried_again(seen, tag@) ==> !reverse_single(
                    aux_fields(before),
                    rev@,
                    i as int,
                ));
                return Err(e);
            }
            assert(reads_to_end(before) ==> reverse_fits(aux_fields(before), rev@, i as int)
                && reverse_single(aux_fields(before), rev@, i as int));
        }
        i += 1;
    }
    assert(rev@.take(rev@.len() as int) =~= rev@);
    let ghost between = *record;
    let mut k: usize = 0;
    while k < revcomp.len()
        invariant
            k <= revcomp@.len(),
            before == *old(record),
            reverse_strand(*record) == reverse_strand(before),
            fixed_part(*record) == fixed_part(before),
            reads_to_end(before) ==> {
                &&& reads_to_end(*record)
                &&& aux_fields(between) == reverse_pass(aux_fields(before), rev@)
                &&& aux_fields(*record) == revcomp_pass(aux_fields(between), revcomp@.take(k as int))
                &&& forall|j: int| 0 <= j < rev@.len() ==> #[trigger] reverse_fits(aux_fields(before), rev@, j)
                &&& forall|j: int| 0 <= j < rev@.len() ==> #[trigger] reverse_single(aux_fields(before), rev@, j)
                &&& forall|j: int| 0 <= j < k ==> #[trigger] revcomp_fits(aux_fields(between), revcomp@, j)
                &&& forall|j: int| 0 <= j < k ==> #[trigger] revcomp_single(aux_fields(between), revcomp@, j)
            },
            (forall|j: int| 0 <= j < rev@.len() ==> lookup(aux_fields(before), #[trigger] rev@[j]@) is None)
                ==> between == before,
            (forall|j: int| 0 <= j < k ==> revcomp_target(aux_fields(between), #[trigger] revcomp@[j]@) is None)
                ==> *record == between,
        decreases revcomp@.len() - k,
    {
        let tag = &revcomp[k];
        proof {
            assert(revcomp@.take(k + 1).drop_last() =~= revcomp@.take(k as int));
            assert(revcomp@.take(k + 1).last() == revcomp@[k as int]);
        }
        if let Some(value) = read_value(record, tag) {
            if let Some(flipped) = revcomp_value(&value) {
                let ghost seen = aux_fields(*record);
                if let Err(e) = replace_value(record, tag, &flipped) {
                    assert(revcomp@[k as int] == *tag);
                    assert(revcomp_target(seen, revcomp@[k as int]@) == Some(flipped@));
                    assert(reads_to_end(before) && !storable(flipped@) ==> !revcomp_fits(
                        aux_fields(between),
                        revcomp@,
                        k as int,
                    ));
                    assert(reads_to_end(before) && carried_again(seen, tag@) ==> !revcomp_single(
                        aux_fields(between),
                        revcomp@,
                        k as int,
                    ));
                    return Err(e);
                }
                assert(reads_to_end(before) ==> revcomp_fits(aux_fields(between), revcomp@, k as int)
                    && revcomp_single(aux_fields(between), revcomp@, k as int));
            }
        }
        k += 1;
    }
    assert(revcomp@.take(revcomp@.len() as int) =~= revcomp@);
    Ok(())
}

/// Handles one record of the stream: a record aligned to the reverse strand
/// has its selected tags rewritten, every other record stays as it is.
pub fn process_record(record: &mut Record, rev: &[[u8; 2]], revcomp: &[[u8; 2]]) -> (result: Result<
    (),
    TagError,
>)
    ensures
        !reverse_strand(*old(record)) ==> result is Ok && *final(record) == *old(record),
        reverse_strand(*old(record)) ==> match result {
            Ok(()) => went_through(*old(record), *final(record), rev@, revcomp@),
            Err(e) => stopped_at(aux_fields(*old(record)), reads_to_end(*old(record)), rev@, revcomp@, e),
        },
        nothing_selected(aux_fields(*old(record)), rev@, revcomp@) ==> *final(record) == *old(record),
{
    if is_reverse(record) {
        reverse_tags_for(record, rev, revcomp)
    } else {
        Ok(())
    }
}

} // verus!
