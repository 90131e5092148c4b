//! Tag identifiers and the validation of user-supplied tag names.

use crate::error::TagError;
use vstd::prelude::*;
use vstd::string::StringSliceAdditionalSpecFns;
use vstd::utf8::encode_utf8;

verus! {

/// The number of bytes in a tag identifier.
pub const TAG_WIDTH: usize = 2;

/// A name is a tag name when its UTF-8 encoding takes exactly two bytes.
pub open spec fn is_tag_name(name: Seq<char>) -> bool {
    encode_utf8(name).len() == TAG_WIDTH
}

/// The number of leading names that are all tag names: the index of the first
/// name that is not one, or the length of `names` when every name is.
pub open spec fn valid_prefix_len(names: Seq<String>) -> nat
    decreases names.len(),
{
    if names.len() == 0 || !is_tag_name(names[0]@) {
        0
    } else {
        1 + valid_prefix_len(names.drop_first())
    }
}

/// `valid_prefix_len` is the one index that has only tag names before it and
/// either ends the sequence or holds a name that is not a tag name.
pub proof fn lemma_valid_prefix_len(names: Seq<String>, k: nat)
    requires
        k <= names.len(),
        forall|j: int| 0 <= j < k ==> is_tag_name(#[trigger] names[j]@),
        k == names.len() || !is_tag_name(names[k as int]@),
    ensures
        valid_prefix_len(names) == k,
    decreases names.len(),
{
    if names.len() == 0 || !is_tag_name(names[0]@) {
        if k > 0 {
            assert(is_tag_name(names[0]@));
        }
    } else {
        let rest = names.drop_first();
        assert forall|j: int| 0 <= j < k - 1 implies is_tag_name(#[trigger] rest[j]@) by {
            assert(rest[j] == names[j + 1]);
        }
        lemma_valid_prefix_len(rest, (k - 1) as nat);
    }
}

/// `ids` are the identifiers of `names`: one for each name, in order, each
/// made of the two bytes of its name.
pub open spec fn identifiers_of(names: Seq<String>, ids: Seq<[u8; 2]>) -> bool {
    &&& ids.len() == names.len()
    &&& forall|i: int| 0 <= i < ids.len() ==> (#[trigger] ids[i])@ == encode_utf8(names[i]@)
}

/// What validating `names` gives: their identifiers where every name is a
/// tag name, else the error that names the first that is not.
pub open spec fn validated(names: Seq<String>, result: Result<Vec<[u8; 2]>, TagError>) -> bool {
    match result {
        Ok(ids) => valid_prefix_len(names) == names.len() && identifiers_of(names, ids@),
        Err(e) => valid_prefix_len(names) < names.len() && e == TagError::InvalidTagName(
            names[valid_prefix_len(names) as int],
        ),
    }
}

/// Turns tag names into 2-byte tag identifiers, in order and keeping
/// duplicates. Fails on the first name whose byte length is not 2, naming it.
pub fn validate_tags(tags: &[String]) -> (result: Result<Vec<[u8; 2]>, TagError>)
    ensures
        validated(tags@, result),
{
    let mut ids: Vec<[u8; 2]> = Vec::with_capacity(tags.len());
    let mut i: usize = 0;
    while i < tags.len()
        invariant
            i <= tags@.len(),
            ids@.len() == i,
            forall|j: int| 0 <= j < i ==> is_tag_name(#[trigger] tags@[j]@),
            forall|j: int| 0 <= j < i ==> (#[trigger] ids@[j])@ == encode_utf8(tags@[j]@),
        decreases tags@.len() - i,
    {
        let name = tags[i].as_str();
        if name.len() != 2 {
            proof {
                lemma_valid_prefix_len(tags@, i as nat);
            }
            return Err(TagError::InvalidTagName(tags[i].clone()));
        }
        let bytes = name.as_bytes();
        let id: [u8; 2] = [bytes[0], bytes[1]];
        assert(id@ =~= encode_utf8(tags@[i as int]@));
        ids.push(id);
        i += 1;
    }
    proof {
        lemma_valid_prefix_len(tags@, tags@.len());
    }
    Ok(ids)
}

/// Validates the two selections of a run, the tags to reverse first. An
/// invalid name among them is reported before any name of the second list is
/// looked at.
pub fn validate_selection(rev: &[String], revcomp: &[String]) -> (result: Result<
    (Vec<[u8; 2]>, Vec<[u8; 2]>),
    TagError,
>)
    ensures
        match result {
            Ok((rev_ids, revcomp_ids)) => {
                &&& valid_prefix_len(rev@) == rev@.len()
                &&& valid_prefix_len(revcomp@) == revcomp@.len()
                &&& identifiers_of(rev@, rev_ids@)
                &&& identifiers_of(revcomp@, revcomp_ids@)
            },
            Err(e) => if valid_prefix_len(rev@) < rev@.len() {
                e == TagError::InvalidTagName(rev@[valid_prefix_len(rev@) as int])
            } else {
                &&& valid_prefix_len(revcomp@) < revcomp@.len()
                &&& e == TagError::InvalidTagName(revcomp@[valid_prefix_len(revcomp@) as int])
            },
        },
{
    let rev_ids = match validate_tags(rev) {
        Ok(ids) => ids,
        Err(e) => {
            return Err(e);
        },
    };
    match validate_tags(revcomp) {
        Ok(revcomp_ids) => Ok((rev_ids, revcomp_ids)),
        Err(e) => Err(e),
    }
}

} // verus!
