//! The decisions of a run that are taken before the first record is read:
//! which stream a path names, which format the output has, and how many
//! extra threads the streams get.

use vstd::prelude::*;
use vstd::string::StringSliceAdditionalSpecFns;
use vstd::utf8::encode_utf8;

verus! {

/// The format in which records are written.
#[derive(Debug, Clone, Copy, PartialEq, Eq, Structural)]
pub enum OutputFormat {
    Sam,
    Bam,
    Cram,
}

/// The bytes of `.bam`.
pub open spec fn bam_suffix() -> Seq<u8> {
    seq![46u8, 98u8, 97u8, 109u8]
}

/// The bytes of `.cram`.
pub open spec fn cram_suffix() -> Seq<u8> {
    seq![46u8, 99u8, 114u8, 97u8, 109u8]
}

/// The bytes of `-`, the name of the standard stream.
pub open spec fn dash() -> Seq<u8> {
    seq![45u8]
}

/// `text` ends with `suffix`.
pub open spec fn is_suffix(text: Seq<u8>, suffix: Seq<u8>) -> bool {
    suffix.len() <= text.len() && text.subrange(text.len() - suffix.len(), text.len() as int) == suffix
}

/// The output format that a path asks for: BAM for a name that ends with
/// `.bam`, CRAM for one that ends with `.cram`, SAM for any other.
pub open spec fn format_of(path: Seq<char>) -> OutputFormat {
    if is_suffix(encode_utf8(path), bam_suffix()) {
        OutputFormat::Bam
    } else if is_suffix(encode_utf8(path), cram_suffix()) {
        OutputFormat::Cram
    } else {
        OutputFormat::Sam
    }
}

/// Whether `text` ends with `suffix`.
pub fn ends_with(text: &[u8], suffix: &[u8]) -> (found: bool)
    ensures
        found == is_suffix(text@, suffix@),
{
    if suffix.len() > text.len() {
        return false;
    }
    let offset = text.len() - suffix.len();
    let ghost tail = text@.subrange(offset as int, text@.len() as int);
    let mut i: usize = 0;
    while i < suffix.len()
        invariant
            i <= suffix@.len(),
            suffix@.len() == suffix.len(),
            text@.len() == text.len(),
            offset + suffix@.len() == text@.len(),
            tail == text@.subrange(offset as int, text@.len() as int),
            forall|j: int| 0 <= j < i ==> text@[offset + j] == suffix@[j],
        decreases suffix@.len() - i,
    {
        if text[offset + i] != suffix[i] {
            assert(tail[i as int] != suffix@[i as int]);
            return false;
        }
        i += 1;
    }
    assert(tail =~= suffix@);
    true
}

/// The format to write a file of this name in.
pub fn output_format(path: &str) -> (format: OutputFormat)
    ensures
        format == format_of(path@),
{
    let bytes = path.as_bytes();
    let bam: [u8; 4] = [46, 98, 97, 109];
    let cram: [u8; 5] = [46, 99, 114, 97, 109];
    assert(bam@ =~= bam_suffix());
    assert(cram@ =~= cram_suffix());
    if ends_with(bytes, bam.as_slice()) {
        OutputFormat::Bam
    } else if ends_with(bytes, cram.as_slice()) {
        OutputFormat::Cram
    } else {
        OutputFormat::Sam
    }
}

/// Whether the path is `-`, which stands for the standard stream.
pub fn is_standard_stream(path: &str) -> (standard: bool)
    ensures
        standard == (encode_utf8(path@) == dash()),
{
    let bytes = path.as_bytes();
    let found = bytes.len() == 1 && bytes[0] == 45;
    assert(found ==> bytes@ =~= dash());
    found
}

/// The threads that a stream gets beside the one that handles the records:
/// one fewer than the run was given, and none for a run of one thread or
/// fewer.
pub fn extra_threads(threads: usize) -> (extra: Option<usize>)
    ensures
        extra == if threads > 1 {
            Some((threads - 1) as usize)
        } else {
            None
        },
{
    if threads > 1 {
        Some(threads - 1)
    } else {
        None
    }
}

} // verus!
