//! Finding where the word under the cursor starts.
use vstd::prelude::*;
use vstd::utf8::encode_utf8;

verus! {

/// `r` is the start of the last word of `bytes`: just past the last byte that
/// is one of `breaks`, or `0` when there is none.
pub open spec fn is_word_start(bytes: Seq<u8>, breaks: Seq<u8>, r: int) -> bool {
    &&& 0 <= r <= bytes.len()
    &&& (r == 0 || breaks.contains(bytes[r - 1]))
    &&& forall|j: int| r <= j < bytes.len() ==> !breaks.contains(#[trigger] bytes[j])
}

/// Whether `b` is one of `breaks`.
fn is_break_byte(breaks: &[u8], b: u8) -> (r: bool)
    ensures
        r == breaks@.contains(b),
{
    let mut i: usize = 0;
    while i < breaks.len()
        invariant
            0 <= i <= breaks@.len(),
            forall|j: int| 0 <= j < i ==> breaks@[j] != b,
        decreases breaks@.len() - i,
    {
        if breaks[i] == b {
            return true;
        }
        i = i + 1;
    }
    false
}

/// Returns the byte offset where the last word of `line` starts: just past
/// the last occurrence of one of `breaks`, or `0` when none occurs. The
/// breaks are ASCII, so they never match inside a multi-byte character.
pub fn word_break_start(line: &str, breaks: &[u8]) -> (r: usize)
    requires
        forall|i: int| 0 <= i < breaks@.len() ==> #[trigger] breaks@[i] < 0x80,
    ensures
        is_word_start(encode_utf8(line@), breaks@, r as int),
{
    let bytes: &[u8] = line.as_bytes();
    let mut i: usize = bytes.len();
    while i > 0
        invariant
            bytes@ == encode_utf8(line@),
            0 <= i <= bytes@.len(),
            forall|j: int| i <= j < bytes@.len() ==> !breaks@.contains(#[trigger] bytes@[j]),
        decreases i,
    {
        if is_break_byte(breaks, bytes[i - 1]) {
            return i;
        }
        i = i - 1;
    }
    0
}

} // verus!
