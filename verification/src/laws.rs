//! What the transform does to a record whose tags stand once: the rewritten
//! tag holds the new value, every other tag holds what it held, and a
//! transform taken twice gives each value back.

use crate::dna::{
    lemma_revcomp_involution, lemma_revcomp_text_ascii, lemma_revcomp_text_involution, revcomp_ascii,
    revcomp_text,
};
use crate::engine::{
    all_steps_free, carried_again, pass, reverse_fits, reverse_single, revcomp_fits, revcomp_single,
    storable, transformed, went_through, reverse_pass, reverse_step, revcomp_pass, revcomp_step, revcomp_target, rewrite,
};
use crate::record::{aux_fields, carried, entry, lookup, position, reads_to_end, AuxField, AuxValue};
use rust_htslib::bam::Record;
use crate::value::{lemma_reversed_involution, TagValueView};
use vstd::prelude::*;
use vstd::utf8::{encode_scalar, encode_utf8, is_ascii_chars, is_ascii_chars_encode_utf8};

verus! {

/// Exactly one field carries `tag`.
pub open spec fn stands_once(fields: Seq<AuxField>, tag: Seq<u8>) -> bool {
    &&& position(fields, tag) < fields.len()
    &&& forall|j: int|
        0 <= j < fields.len() && j != position(fields, tag) ==> (#[trigger] fields[j]).tag != tag
}

/// No two fields carry the same tag.
pub open spec fn distinct_tags(fields: Seq<AuxField>) -> bool {
    forall|i: int, j: int| 0 <= i < j < fields.len() ==> (#[trigger] fields[i]).tag != (#[trigger] fields[j]).tag
}

/// No two tags of the list are the same.
pub open spec fn distinct_list(tags: Seq<[u8; 2]>) -> bool {
    forall|i: int, j: int| 0 <= i < j < tags.len() ==> (#[trigger] tags[i])@ != (#[trigger] tags[j])@
}

/// The list names `tag`.
pub open spec fn listed(tags: Seq<[u8; 2]>, tag: Seq<u8>) -> bool {
    exists|i: int| 0 <= i < tags.len() && (#[trigger] tags[i])@ == tag
}

/// What a field holds after the reverse pass took its tag: an array or text
/// reversed, anything else as it was.
pub open spec fn reversed_entry(held: Option<AuxValue>) -> Option<AuxValue> {
    match held {
        Some(AuxValue::Held(value)) => Some(AuxValue::Held(value.reversed())),
        _ => held,
    }
}

/// What a field holds after the reverse-complement pass took its tag: the
/// reverse complement of a text or an array of unsigned bytes, anything else
/// as it was.
pub open spec fn revcomp_entry(held: Option<AuxValue>) -> Option<AuxValue> {
    match held {
        Some(AuxValue::Held(value)) => match value.revcomplemented() {
            Some(flipped) => Some(AuxValue::Held(flipped)),
            None => held,
        },
        _ => held,
    }
}

/// `position` is the first index whose field carries the tag, or the number
/// of fields where none does.
pub proof fn lemma_position(fields: Seq<AuxField>, tag: Seq<u8>)
    ensures
        0 <= position(fields, tag) <= fields.len(),
        position(fields, tag) < fields.len() ==> fields[position(fields, tag)].tag == tag,
        forall|j: int| 0 <= j < position(fields, tag) ==> (#[trigger] fields[j]).tag != tag,
    decreases fields.len(),
{
    if fields.len() > 0 && fields[0].tag != tag {
        let rest = fields.drop_first();
        lemma_position(rest, tag);
        assert forall|j: int| 0 <= j < position(fields, tag) implies (#[trigger] fields[j]).tag != tag by {
            if j > 0 {
                assert(rest[j - 1] == fields[j]);
            }
        }
    }
}

/// An index that has no field under the tag before it, and that carries the
/// tag or ends the fields, is the tag's position.
pub proof fn lemma_position_is(fields: Seq<AuxField>, tag: Seq<u8>, k: int)
    requires
        0 <= k <= fields.len(),
        forall|j: int| 0 <= j < k ==> (#[trigger] fields[j]).tag != tag,
        k < fields.len() ==> fields[k].tag == tag,
    ensures
        position(fields, tag) == k,
    decreases fields.len(),
{
    if k > 0 {
        let rest = fields.drop_first();
        assert(fields[0].tag != tag);
        assert forall|j: int| 0 <= j < k - 1 implies (#[trigger] rest[j]).tag != tag by {
            assert(rest[j] == fields[j + 1]);
        }
        lemma_position_is(rest, tag, k - 1);
    }
}

/// Where fields carry distinct tags, a tag that is carried stands once.
pub proof fn lemma_distinct_stands_once(fields: Seq<AuxField>, tag: Seq<u8>)
    requires
        distinct_tags(fields),
        position(fields, tag) < fields.len(),
    ensures
        stands_once(fields, tag),
{
    lemma_position(fields, tag);
    let p = position(fields, tag);
    assert forall|j: int| 0 <= j < fields.len() && j != p implies (#[trigger] fields[j]).tag != tag by {
        if j < p {
            assert(fields[j].tag != fields[p].tag);
        } else {
            assert(fields[p].tag != fields[j].tag);
        }
    }
}

/// Rewriting a tag that stands once: the tag then holds the new value and
/// again stands once, as many fields stand as before, and every other tag
/// holds what it held, whatever its kind.
pub proof fn lemma_rewrite_unique(fields: Seq<AuxField>, tag: Seq<u8>, value: TagValueView, other: Seq<u8>)
    requires
        stands_once(fields, tag),
    ensures
        rewrite(fields, tag, value).len() == fields.len(),
        lookup(rewrite(fields, tag, value), tag) == Some(value),
        stands_once(rewrite(fields, tag, value), tag),
        other != tag ==> entry(rewrite(fields, tag, value), other) == entry(fields, other),
        distinct_tags(fields) ==> distinct_tags(rewrite(fields, tag, value)),
{
    let p = position(fields, tag);
    let after = rewrite(fields, tag, value);
    let last = fields.len() - 1;
    lemma_position(fields, tag);
    fields.remove_ensures(p);
    assert(after.len() == fields.len());
    assert forall|j: int| 0 <= j < last implies #[trigger] after[j] == fields[if j < p {
        j
    } else {
        j + 1
    }] by {
        assert(after[j] == fields.remove(p)[j]);
    }
    assert(after[last].tag == tag);
    assert forall|j: int| 0 <= j < last implies (#[trigger] after[j]).tag != tag by {
        let from = if j < p {
            j
        } else {
            j + 1
        };
        assert(fields[from].tag != tag);
    }
    lemma_position_is(after, tag, last);
    if other != tag {
        let q = position(fields, other);
        lemma_position(fields, other);
        if q < fields.len() {
            let to = if q < p {
                q
            } else {
                q - 1
            };
            assert(after[to] == fields[q]);
            assert forall|j: int| 0 <= j < to implies (#[trigger] after[j]).tag != other by {
                let from = if j < p {
                    j
                } else {
                    j + 1
                };
                assert(fields[from].tag != other);
            }
            lemma_position_is(after, other, to);
        } else {
            assert forall|j: int| 0 <= j < after.len() implies (#[trigger] after[j]).tag != other by {
                if j < last {
                    let from = if j < p {
                        j
                    } else {
                        j + 1
                    };
                    assert(fields[from].tag != other);
                }
            }
            lemma_position_is(after, other, after.len() as int);
        }
    }
    if distinct_tags(fields) {
        assert forall|i: int, j: int| 0 <= i < j < after.len() implies (#[trigger] after[i]).tag != (
        #[trigger] after[j]).tag by {
            if j < last {
                let a = if i < p {
                    i
                } else {
                    i + 1
                };
                let b = if j < p {
                    j
                } else {
                    j + 1
                };
                assert(fields[a].tag != fields[b].tag);
            }
        }
    }
}

/// One step of the reverse pass on a tag that stands once: the tag holds the
/// reversal of its array or text, every other tag holds what it held, and
/// the tag again stands once.
pub proof fn lemma_reverse_step_unique(fields: Seq<AuxField>, tag: Seq<u8>, other: Seq<u8>)
    requires
        stands_once(fields, tag),
    ensures
        reverse_step(fields, tag).len() == fields.len(),
        entry(reverse_step(fields, tag), tag) == reversed_entry(entry(fields, tag)),
        stands_once(reverse_step(fields, tag), tag),
        other != tag ==> entry(reverse_step(fields, tag), other) == entry(fields, other),
        distinct_tags(fields) ==> distinct_tags(reverse_step(fields, tag)),
{
    match lookup(fields, tag) {
        Some(value) => lemma_rewrite_unique(fields, tag, value.reversed(), other),
        None => {},
    }
}

/// One step of the reverse-complement pass on a tag that stands once: the
/// tag holds the reverse complement of its text or unsigned bytes, every
/// other tag holds what it held, and the tag again stands once.
pub proof fn lemma_revcomp_step_unique(fields: Seq<AuxField>, tag: Seq<u8>, other: Seq<u8>)
    requires
        stands_once(fields, tag),
    ensures
        revcomp_step(fields, tag).len() == fields.len(),
        entry(revcomp_step(fields, tag), tag) == revcomp_entry(entry(fields, tag)),
        stands_once(revcomp_step(fields, tag), tag),
        other != tag ==> entry(revcomp_step(fields, tag), other) == entry(fields, other),
        distinct_tags(fields) ==> distinct_tags(revcomp_step(fields, tag)),
{
    match revcomp_target(fields, tag) {
        Some(value) => lemma_rewrite_unique(fields, tag, value, other),
        None => {},
    }
}

/// Reversing a tag that stands once, twice, gives the tag its value back.
pub proof fn lemma_reverse_round_trip(fields: Seq<AuxField>, tag: Seq<u8>)
    requires
        stands_once(fields, tag),
    ensures
        entry(reverse_step(reverse_step(fields, tag), tag), tag) == entry(fields, tag),
        lookup(reverse_step(reverse_step(fields, tag), tag), tag) == lookup(fields, tag),
{
    let once = reverse_step(fields, tag);
    lemma_reverse_step_unique(fields, tag, tag);
    lemma_reverse_step_unique(once, tag, tag);
    match lookup(fields, tag) {
        Some(value) => lemma_reversed_involution(value),
        None => {},
    }
}

/// The reverse complement of an ASCII text that stands once under its tag:
/// a text of the same length that holds, at each place, the complement of
/// the symbol at that place from the end.
pub proof fn lemma_revcomp_step_text(fields: Seq<AuxField>, tag: Seq<u8>, text: Seq<char>)
    requires
        stands_once(fields, tag),
        lookup(fields, tag) == Some(TagValueView::Text(text)),
        is_ascii_chars(text),
    ensures
        lookup(revcomp_step(fields, tag), tag) == Some(TagValueView::Text(revcomp_ascii(text))),
        revcomp_ascii(text).len() == text.len(),
{
    lemma_revcomp_text_ascii(text);
    lemma_revcomp_step_unique(fields, tag, tag);
}

/// Taking the reverse complement of a tag that stands once, twice, gives the
/// tag its value back, where a text under the tag is ASCII.
pub proof fn lemma_revcomp_round_trip(fields: Seq<AuxField>, tag: Seq<u8>)
    requires
        stands_once(fields, tag),
        lookup(fields, tag) matches Some(TagValueView::Text(text)) ==> is_ascii_chars(text),
    ensures
        entry(revcomp_step(revcomp_step(fields, tag), tag), tag) == entry(fields, tag),
        lookup(revcomp_step(revcomp_step(fields, tag), tag), tag) == lookup(fields, tag),
{
    let once = revcomp_step(fields, tag);
    lemma_revcomp_step_unique(fields, tag, tag);
    lemma_revcomp_step_unique(once, tag, tag);
    match lookup(fields, tag) {
        Some(TagValueView::Text(text)) => {
            lemma_revcomp_text_involution(text);
        },
        Some(TagValueView::ArrayU8(bytes)) => {
            lemma_revcomp_involution(bytes);
        },
        _ => {},
    }
}

/// The tag stands once where a field carries it and no second one does.
pub proof fn lemma_stands_once_is_single(fields: Seq<AuxField>, tag: Seq<u8>)
    ensures
        stands_once(fields, tag) <==> carried(fields, tag) && !carried_again(fields, tag),
{
    if carried(fields, tag) {
        let p = position(fields, tag);
        let rest = fields.remove(p);
        lemma_position(fields, tag);
        lemma_position(rest, tag);
        fields.remove_ensures(p);
        if stands_once(fields, tag) {
            assert forall|j: int| 0 <= j < rest.len() implies (#[trigger] rest[j]).tag != tag by {
                let from = if j < p {
                    j
                } else {
                    j + 1
                };
                assert(fields[from].tag != tag);
            }
            lemma_position_is(rest, tag, rest.len() as int);
        }
        if !carried_again(fields, tag) {
            assert forall|j: int| 0 <= j < fields.len() && j != p implies (#[trigger] fields[j]).tag != tag by {
                let to = if j < p {
                    j
                } else {
                    j - 1
                };
                assert(rest[to] == fields[j]);
            }
        }
    }
}

/// A character more at the end of a text adds the bytes of that character
/// to its encoding.
pub proof fn lemma_encoded_len_push(text: Seq<char>, c: char)
    ensures
        encode_utf8(text.push(c)).len() == encode_utf8(text).len() + encode_utf8(seq![c]).len(),
    decreases text.len(),
{
    assert(seq![c].drop_first() =~= Seq::<char>::empty());
    if text.len() == 0 {
        assert(text.push(c) =~= seq![c]);
    } else {
        assert(text.push(c).drop_first() =~= text.drop_first().push(c));
        lemma_encoded_len_push(text.drop_first(), c);
    }
}

/// A text read back to front takes as many bytes as the text.
pub proof fn lemma_reversed_encoded_len(text: Seq<char>)
    ensures
        encode_utf8(text.reverse()).len() == encode_utf8(text).len(),
    decreases text.len(),
{
    if text.len() > 0 {
        let rest = text.drop_first();
        let first = seq![text[0]];
        assert(text.reverse() =~= rest.reverse().push(text[0]));
        assert(first.drop_first() =~= Seq::<char>::empty());
        assert(encode_utf8(first) =~= encode_scalar(text[0] as u32)) by {
            assert(encode_utf8(first.drop_first()) =~= Seq::<u8>::empty());
        }
        assert(encode_utf8(text) == encode_scalar(text[0] as u32) + encode_utf8(rest));
        lemma_encoded_len_push(rest.reverse(), text[0]);
        lemma_reversed_encoded_len(rest);
    } else {
        assert(text.reverse() =~= text);
    }
}

/// A record can take the reversal of a value just where it can take the
/// value.
pub proof fn lemma_reversed_storable(value: TagValueView)
    ensures
        storable(value.reversed()) == storable(value),
{
    match value {
        TagValueView::Text(text) => lemma_reversed_encoded_len(text),
        _ => {},
    }
}

/// A record can take the reverse complement of unsigned bytes or of an ASCII
/// text just where it can take the value.
pub proof fn lemma_revcomplemented_storable(value: TagValueView)
    requires
        value.revcomplemented() is Some,
        value matches TagValueView::Text(text) ==> is_ascii_chars(text),
    ensures
        storable(value.revcomplemented()->0) == storable(value),
{
    match value {
        TagValueView::Text(text) => {
            lemma_revcomp_text_ascii(text);
            is_ascii_chars_encode_utf8(text);
            is_ascii_chars_encode_utf8(revcomp_text(text));
        },
        _ => {},
    }
}

/// A step of the reverse pass that could be taken, and the same step again:
/// the second finds the tag on one field only and has a value that a record
/// can take, and it gives the tag the value back that it had.
pub proof fn lemma_reverse_step_again(fields: Seq<AuxField>, tag: Seq<u8>)
    requires
        lookup(fields, tag) matches Some(value) && storable(value.reversed()),
        !carried_again(fields, tag),
    ensures
        lookup(reverse_step(fields, tag), tag) matches Some(once) && once == lookup(fields, tag)->0.reversed()
            && storable(once.reversed()),
        !carried_again(reverse_step(fields, tag), tag),
        lookup(reverse_step(reverse_step(fields, tag), tag), tag) == lookup(fields, tag),
{
    let once = reverse_step(fields, tag);
    let value = lookup(fields, tag)->0;
    lemma_stands_once_is_single(fields, tag);
    lemma_reverse_step_unique(fields, tag, tag);
    lemma_stands_once_is_single(once, tag);
    lemma_reverse_round_trip(fields, tag);
    lemma_reversed_involution(value);
    lemma_reversed_storable(value);
}

/// A step of the reverse-complement pass that could be taken, and the same
/// step again, where a text under the tag is ASCII: the second finds the tag
/// on one field only and has a value that a record can take, and it gives
/// the tag the value back that it had.
pub proof fn lemma_revcomp_step_again(fields: Seq<AuxField>, tag: Seq<u8>)
    requires
        revcomp_target(fields, tag) matches Some(flipped) && storable(flipped),
        !carried_again(fields, tag),
        lookup(fields, tag) matches Some(TagValueView::Text(text)) ==> is_ascii_chars(text),
    ensures
        lookup(revcomp_step(fields, tag), tag) == revcomp_target(fields, tag),
        revcomp_target(revcomp_step(fields, tag), tag) matches Some(back) && storable(back),
        !carried_again(revcomp_step(fields, tag), tag),
        lookup(revcomp_step(revcomp_step(fields, tag), tag), tag) == lookup(fields, tag),
{
    let once = revcomp_step(fields, tag);
    let value = lookup(fields, tag)->0;
    lemma_stands_once_is_single(fields, tag);
    lemma_revcomp_step_unique(fields, tag, tag);
    lemma_stands_once_is_single(once, tag);
    lemma_revcomp_round_trip(fields, tag);
    lemma_revcomplemented_storable(value);
    match value {
        TagValueView::Text(text) => {
            lemma_revcomp_text_involution(text);
        },
        TagValueView::ArrayU8(bytes) => {
            lemma_revcomp_involution(bytes);
        },
        _ => {},
    }
}

/// What a step does to fields that carry distinct tags: they stay as many
/// and distinct, the step's tag holds `change` of what it held, and every
/// other tag holds what it held.
pub open spec fn step_keeps_others(
    step: spec_fn(Seq<AuxField>, Seq<u8>) -> Seq<AuxField>,
    change: spec_fn(Option<AuxValue>) -> Option<AuxValue>,
) -> bool {
    &&& forall|fields: Seq<AuxField>, tag: Seq<u8>|
        distinct_tags(fields) ==> (#[trigger] step(fields, tag)).len() == fields.len() && distinct_tags(
            step(fields, tag),
        )
    &&& forall|fields: Seq<AuxField>, tag: Seq<u8>, other: Seq<u8>|
        distinct_tags(fields) ==> #[trigger] entry(step(fields, tag), other) == if other == tag {
            change(entry(fields, tag))
        } else {
            entry(fields, other)
        }
}

/// A pass over distinct tags, on fields that carry distinct tags, by a step
/// that keeps the other tags: a listed tag holds `change` of what it held,
/// every other tag holds what it held, whatever its kind, and the fields
/// still carry distinct tags, as many as before.
pub proof fn lemma_pass_distinct(
    step: spec_fn(Seq<AuxField>, Seq<u8>) -> Seq<AuxField>,
    change: spec_fn(Option<AuxValue>) -> Option<AuxValue>,
    fields: Seq<AuxField>,
    tags: Seq<[u8; 2]>,
    tag: Seq<u8>,
)
    requires
        step_keeps_others(step, change),
        distinct_tags(fields),
        distinct_list(tags),
    ensures
        pass(step, fields, tags).len() == fields.len(),
        distinct_tags(pass(step, fields, tags)),
        entry(pass(step, fields, tags), tag) == if listed(tags, tag) {
            change(entry(fields, tag))
        } else {
            entry(fields, tag)
        },
    decreases tags.len(),
{
    if tags.len() > 0 {
        let init = tags.drop_last();
        let last = tags.last()@;
        let so_far = pass(step, fields, init);
        assert forall|i: int, j: int| 0 <= i < j < init.len() implies (#[trigger] init[i])@ != (
        #[trigger] init[j])@ by {
            assert(init[i] == tags[i] && init[j] == tags[j]);
        }
        lemma_pass_distinct(step, change, fields, init, tag);
        lemma_pass_distinct(step, change, fields, init, last);
        assert(!listed(init, last)) by {
            if listed(init, last) {
                let i = choose|i: int| 0 <= i < init.len() && (#[trigger] init[i])@ == last;
                assert(init[i] == tags[i]);
                assert(tags[i]@ != tags[tags.len() - 1]@);
            }
        }
        assert(listed(tags, last)) by {
            assert(tags[tags.len() - 1]@ == last);
        }
        if tag != last {
            assert(listed(tags, tag) == listed(init, tag)) by {
                if listed(tags, tag) {
                    let i = choose|i: int| 0 <= i < tags.len() && (#[trigger] tags[i])@ == tag;
                    assert(init[i] == tags[i]);
                }
                if listed(init, tag) {
                    let i = choose|i: int| 0 <= i < init.len() && (#[trigger] init[i])@ == tag;
                    assert(init[i] == tags[i]);
                }
            }
        }
        assert(step(so_far, last).len() == so_far.len());
        assert(entry(step(so_far, last), tag) == if tag == last {
            change(entry(so_far, last))
        } else {
            entry(so_far, tag)
        });
    } else {
        assert(!listed(tags, tag));
    }
}

/// The reverse step keeps the other tags and reverses its own.
pub proof fn lemma_reverse_step_keeps_others()
    ensures
        step_keeps_others(
            |f: Seq<AuxField>, t: Seq<u8>| reverse_step(f, t),
            |held: Option<AuxValue>| reversed_entry(held),
        ),
{
    assert forall|fields: Seq<AuxField>, tag: Seq<u8>, other: Seq<u8>| distinct_tags(fields) implies {
        &&& reverse_step(fields, tag).len() == fields.len()
        &&& distinct_tags(reverse_step(fields, tag))
        &&& #[trigger] entry(reverse_step(fields, tag), other) == if other == tag {
            reversed_entry(entry(fields, tag))
        } else {
            entry(fields, other)
        }
    } by {
        if carried(fields, tag) {
            lemma_distinct_stands_once(fields, tag);
            lemma_reverse_step_unique(fields, tag, other);
        }
    }
    assert forall|fields: Seq<AuxField>, tag: Seq<u8>| distinct_tags(fields) implies (#[trigger] reverse_step(
        fields,
        tag,
    )).len() == fields.len() && distinct_tags(reverse_step(fields, tag)) by {
        assert(entry(reverse_step(fields, tag), tag) == reversed_entry(entry(fields, tag)));
    }
}

/// The reverse-complement step keeps the other tags and takes the reverse
/// complement of its own.
pub proof fn lemma_revcomp_step_keeps_others()
    ensures
        step_keeps_others(
            |f: Seq<AuxField>, t: Seq<u8>| revcomp_step(f, t),
            |held: Option<AuxValue>| revcomp_entry(held),
        ),
{
    assert forall|fields: Seq<AuxField>, tag: Seq<u8>, other: Seq<u8>| distinct_tags(fields) implies {
        &&& revcomp_step(fields, tag).len() == fields.len()
        &&& distinct_tags(revcomp_step(fields, tag))
        &&& #[trigger] entry(revcomp_step(fields, tag), other) == if other == tag {
            revcomp_entry(entry(fields, tag))
        } else {
            entry(fields, other)
        }
    } by {
        if carried(fields, tag) {
            lemma_distinct_stands_once(fields, tag);
            lemma_revcomp_step_unique(fields, tag, other);
        }
    }
    assert forall|fields: Seq<AuxField>, tag: Seq<u8>| distinct_tags(fields) implies (#[trigger] revcomp_step(
        fields,
        tag,
    )).len() == fields.len() && distinct_tags(revcomp_step(fields, tag)) by {
        assert(entry(revcomp_step(fields, tag), tag) == revcomp_entry(entry(fields, tag)));
    }
}

/// The reverse pass over distinct tags, on a record whose fields carry
/// distinct tags: a listed tag holds the reversal of its array or text, every
/// other tag holds what it held, whatever its kind, and the fields still
/// carry distinct tags, as many as before.
pub proof fn lemma_reverse_pass_distinct(fields: Seq<AuxField>, tags: Seq<[u8; 2]>, tag: Seq<u8>)
    requires
        distinct_tags(fields),
        distinct_list(tags),
    ensures
        reverse_pass(fields, tags).len() == fields.len(),
        distinct_tags(reverse_pass(fields, tags)),
        entry(reverse_pass(fields, tags), tag) == if listed(tags, tag) {
            reversed_entry(entry(fields, tag))
        } else {
            entry(fields, tag)
        },
{
    lemma_reverse_step_keeps_others();
    lemma_pass_distinct(
        |f: Seq<AuxField>, t: Seq<u8>| reverse_step(f, t),
        |held: Option<AuxValue>| reversed_entry(held),
        fields,
        tags,
        tag,
    );
}

/// The reverse-complement pass over distinct tags, on a record whose fields
/// carry distinct tags: a listed tag holds the reverse complement of its
/// text or unsigned bytes, every other tag holds what it held, whatever its
/// kind, and the fields still carry distinct tags, as many as before.
pub proof fn lemma_revcomp_pass_distinct(fields: Seq<AuxField>, tags: Seq<[u8; 2]>, tag: Seq<u8>)
    requires
        distinct_tags(fields),
        distinct_list(tags),
    ensures
        revcomp_pass(fields, tags).len() == fields.len(),
        distinct_tags(revcomp_pass(fields, tags)),
        entry(revcomp_pass(fields, tags), tag) == if listed(tags, tag) {
            revcomp_entry(entry(fields, tag))
        } else {
            entry(fields, tag)
        },
{
    lemma_revcomp_step_keeps_others();
    lemma_pass_distinct(
        |f: Seq<AuxField>, t: Seq<u8>| revcomp_step(f, t),
        |held: Option<AuxValue>| revcomp_entry(held),
        fields,
        tags,
        tag,
    );
}

/// The reverse pass over distinct tags, taken twice on a record whose fields
/// carry distinct tags, gives every tag its value back.
pub proof fn lemma_reverse_pass_round_trip(fields: Seq<AuxField>, tags: Seq<[u8; 2]>, tag: Seq<u8>)
    requires
        distinct_tags(fields),
        distinct_list(tags),
    ensures
        entry(reverse_pass(reverse_pass(fields, tags), tags), tag) == entry(fields, tag),
{
    let once = reverse_pass(fields, tags);
    lemma_reverse_pass_distinct(fields, tags, tag);
    lemma_reverse_pass_distinct(once, tags, tag);
    match entry(fields, tag) {
        Some(AuxValue::Held(value)) => lemma_reversed_involution(value),
        _ => {},
    }
}

/// The reverse-complement pass over distinct tags, taken twice on a record
/// whose fields carry distinct tags, gives every tag its value back, where a
/// text under a listed tag is ASCII.
pub proof fn lemma_revcomp_pass_round_trip(fields: Seq<AuxField>, tags: Seq<[u8; 2]>, tag: Seq<u8>)
    requires
        distinct_tags(fields),
        distinct_list(tags),
        listed(tags, tag) ==> (lookup(fields, tag) matches Some(TagValueView::Text(text)) ==> is_ascii_chars(
            text,
        )),
    ensures
        entry(revcomp_pass(revcomp_pass(fields, tags), tags), tag) == entry(fields, tag),
{
    let once = revcomp_pass(fields, tags);
    lemma_revcomp_pass_distinct(fields, tags, tag);
    lemma_revcomp_pass_distinct(once, tags, tag);
    match lookup(fields, tag) {
        Some(TagValueView::Text(text)) => {
            if listed(tags, tag) {
                lemma_revcomp_text_involution(text);
            }
        },
        Some(TagValueView::ArrayU8(bytes)) => {
            lemma_revcomp_involution(bytes);
        },
        _ => {},
    }
}

/// A pass for one tag is one step, and a pass for no tag leaves the fields.
pub proof fn lemma_short_passes(fields: Seq<AuxField>, tag: [u8; 2])
    ensures
        reverse_pass(fields, seq![tag]) == reverse_step(fields, tag@),
        revcomp_pass(fields, seq![tag]) == revcomp_step(fields, tag@),
        reverse_pass(fields, Seq::empty()) == fields,
        revcomp_pass(fields, Seq::empty()) == fields,
        transformed(fields, seq![tag], Seq::empty()) == reverse_step(fields, tag@),
        transformed(fields, Seq::empty(), seq![tag]) == revcomp_step(fields, tag@),
{
    let one = seq![tag];
    assert(one.drop_last() =~= Seq::<[u8; 2]>::empty());
    assert(one.last() == tag);
    reveal_with_fuel(pass, 2);
}

/// Reversing one tag by two calls: where the first went through, the second
/// meets no value that is too long and no tag on more than one field, so it
/// can stop only where the record refuses the insert; and where the second
/// went through too, the tag holds again what it held at first.
pub proof fn lemma_reverse_twice(before: Record, middle: Record, after: Record, tag: [u8; 2])
    requires
        reads_to_end(before),
        went_through(before, middle, seq![tag], Seq::empty()),
    ensures
        reads_to_end(middle),
        all_steps_free(aux_fields(middle), seq![tag], Seq::empty()),
        went_through(middle, after, seq![tag], Seq::empty()) ==> lookup(aux_fields(after), tag@) == lookup(
            aux_fields(before),
            tag@,
        ),
{
    let fields = aux_fields(before);
    let rev = seq![tag];
    let none = Seq::<[u8; 2]>::empty();
    lemma_short_passes(fields, tag);
    lemma_short_passes(aux_fields(middle), tag);
    assert(rev.take(0) =~= none);
    assert(rev[0] == tag);
    assert(reverse_fits(fields, rev, 0) && reverse_single(fields, rev, 0));
    if lookup(fields, tag@) is Some {
        lemma_reverse_step_again(fields, tag@);
    }
    assert(reverse_fits(aux_fields(middle), rev, 0) && reverse_single(aux_fields(middle), rev, 0));
}

/// Taking the reverse complement of one tag by two calls, where a text
/// under the tag is ASCII: where the first went through, the second meets no
/// value that is too long and no tag on more than one field, so it can stop
/// only where the record refuses the insert; and where the second went
/// through too, the tag holds again what it held at first.
pub proof fn lemma_revcomp_twice(before: Record, middle: Record, after: Record, tag: [u8; 2])
    requires
        reads_to_end(before),
        went_through(before, middle, Seq::empty(), seq![tag]),
        lookup(aux_fields(before), tag@) matches Some(TagValueView::Text(text)) ==> is_ascii_chars(text),
    ensures
        reads_to_end(middle),
        all_steps_free(aux_fields(middle), Seq::empty(), seq![tag]),
        went_through(middle, after, Seq::empty(), seq![tag]) ==> lookup(aux_fields(after), tag@) == lookup(
            aux_fields(before),
            tag@,
        ),
{
    let fields = aux_fields(before);
    let revcomp = seq![tag];
    let none = Seq::<[u8; 2]>::empty();
    lemma_short_passes(fields, tag);
    lemma_short_passes(aux_fields(middle), tag);
    assert(revcomp.take(0) =~= none);
    assert(revcomp[0] == tag);
    assert(revcomp_fits(fields, revcomp, 0) && revcomp_single(fields, revcomp, 0));
    if revcomp_target(fields, tag@) is Some {
        lemma_revcomp_step_again(fields, tag@);
    }
    assert(revcomp_fits(aux_fields(middle), revcomp, 0) && revcomp_single(aux_fields(middle), revcomp, 0));
}

/// The reverse complement of an ASCII text under one tag, by a call that
/// went through: a text of the same length that holds, at each place, the
/// complement of the symbol at that place from the end.
pub proof fn lemma_revcomp_of_text(before: Record, after: Record, tag: [u8; 2], text: Seq<char>)
    requires
        reads_to_end(before),
        lookup(aux_fields(before), tag@) == Some(TagValueView::Text(text)),
        is_ascii_chars(text),
        went_through(before, after, Seq::empty(), seq![tag]),
    ensures
        lookup(aux_fields(after), tag@) == Some(TagValueView::Text(revcomp_ascii(text))),
        revcomp_ascii(text).len() == text.len(),
{
    let fields = aux_fields(before);
    let revcomp = seq![tag];
    lemma_short_passes(fields, tag);
    assert(revcomp.take(0) =~= Seq::<[u8; 2]>::empty());
    assert(revcomp[0] == tag);
    assert(revcomp_single(fields, revcomp, 0));
    lemma_stands_once_is_single(fields, tag@);
    lemma_revcomp_step_text(fields, tag@, text);
}

} // verus!
