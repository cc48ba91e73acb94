//! Counting the lines of a blob.

use vstd::prelude::*;

verus! {

/// How often `byte` occurs in `data`.
pub open spec fn occurrences(data: Seq<u8>, byte: u8) -> nat
    decreases data.len(),
{
    if data.len() == 0 {
        0
    } else {
        occurrences(data.drop_last(), byte) + if data.last() == byte {
            1nat
        } else {
            0nat
        }
    }
}

/// A byte occurs at most once per position, and less often than there are
/// positions when the last byte is another.
pub proof fn lemma_occurrences_bound(data: Seq<u8>, byte: u8)
    ensures
        occurrences(data, byte) <= data.len(),
        data.len() > 0 && data.last() != byte ==> occurrences(data, byte) < data.len(),
    decreases data.len(),
{
    if data.len() > 0 {
        lemma_occurrences_bound(data.drop_last(), byte);
    }
}

/// Calls `bytecount::count`, which counts the occurrences of a byte in a
/// slice of bytes.
#[verifier::external_body]
fn count_byte(data: &[u8], byte: u8) -> (n: usize)
    ensures
        n == occurrences(data@, byte),
{
    bytecount::count(data, byte)
}

/// The number of lines in a blob: one for each line feed, and one more for
/// a last line that no line feed ends. An empty blob has no line.
pub open spec fn line_count(data: Seq<u8>) -> nat {
    if data.len() == 0 {
        0
    } else if data.last() == 10u8 {
        occurrences(data, 10u8)
    } else {
        occurrences(data, 10u8) + 1
    }
}

/// A number of lines as a counter holds it.
pub open spec fn as_counter(n: nat) -> u32 {
    if n > u32::MAX {
        u32::MAX
    } else {
        n as u32
    }
}

/// Counts the lines of a blob; a count beyond the counter's range is held at
/// its largest value.
pub fn count_lines_in_bytes(data: &[u8]) -> (lines: u32)
    ensures
        lines == as_counter(line_count(data@)),
{
    if data.len() == 0 {
        return 0;
    }
    proof {
        lemma_occurrences_bound(data@, 10u8);
    }
    let mut count: usize = count_byte(data, 10u8);
    if data[data.len() - 1] != 10u8 {
        count = count + 1;
    }
    if count > u32::MAX as usize {
        u32::MAX
    } else {
        count as u32
    }
}

} // verus!
