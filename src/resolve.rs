//! Resolving the files that the completion engine asks for.
use vstd::prelude::*;
use vstd::utf8::{decode_utf8, valid_utf8};

verus! {

/// The reserved name of the synthetic root file. Its contents are always
/// supplied from the composed source, never read from storage.
pub const VIRTUAL_ENTRY: &'static str = "lib.rs";

/// What resolving a file name takes.
pub enum LoadStep {
    /// The contents are known without reading anything.
    Contents(String),
    /// The file's bytes must be read from storage, then handed to
    /// [`decode_source`].
    ReadStorage,
}

/// The bytes of a file are not valid UTF-8 once a leading byte-order mark is
/// dropped.
#[derive(Debug, PartialEq, Eq, Structural)]
pub struct DecodeError;

/// The first step of resolving `path`: the virtual entry point resolves to
/// empty text without touching storage; every other file must be read.
pub fn begin_load(path: &str) -> (r: LoadStep)
    ensures
        path@ == VIRTUAL_ENTRY@ ==> (r matches LoadStep::Contents(s) && s@.len() == 0),
        path@ != VIRTUAL_ENTRY@ ==> r is ReadStorage,
{
    let name: String = path.to_owned();
    let entry: String = VIRTUAL_ENTRY.to_owned();
    if name == entry {
        LoadStep::Contents(String::new())
    } else {
        LoadStep::ReadStorage
    }
}

/// `raw` starts with the UTF-8 byte-order mark `EF BB BF`.
pub open spec fn has_bom(raw: Seq<u8>) -> bool {
    raw.len() >= 3 && raw[0] == 0xEFu8 && raw[1] == 0xBBu8 && raw[2] == 0xBFu8
}

/// `raw` without its leading byte-order mark, if it has one.
pub open spec fn without_bom(raw: Seq<u8>) -> Seq<u8> {
    if has_bom(raw) {
        raw.subrange(3, raw.len() as int)
    } else {
        raw
    }
}

/// Returns a copy of `raw` without its leading byte-order mark, if it has one.
pub fn strip_bom(raw: &[u8]) -> (r: Vec<u8>)
    ensures
        r@ == without_bom(raw@),
{
    let n: usize = raw.len();
    let start: usize = if n >= 3 && raw[0] == 0xEFu8 && raw[1] == 0xBBu8 && raw[2] == 0xBFu8 {
        3
    } else {
        0
    };
    let mut out: Vec<u8> = Vec::new();
    let mut i: usize = start;
    while i < n
        invariant
            n == raw@.len(),
            start <= i <= n,
            out@ == raw@.subrange(start as int, i as int),
        decreases n - i,
    {
        out.push(raw[i]);
        i = i + 1;
        proof {
            assert(out@ =~= raw@.subrange(start as int, i as int));
        }
    }
    proof {
        assert(raw@.subrange(0, n as int) =~= raw@);
    }
    out
}

/// Relies on `std::str::from_utf8`: it succeeds exactly on valid UTF-8, and
/// the text then holds the characters that the bytes encode.
#[verifier::external_body]
fn utf8_to_string(bytes: &[u8]) -> (r: Option<String>)
    ensures
        r is Some <==> valid_utf8(bytes@),
        r matches Some(s) ==> s@ == decode_utf8(bytes@),
{
    std::str::from_utf8(bytes).ok().map(|s| s.to_owned())
}

/// Decodes a file's raw bytes as text: a leading byte-order mark is dropped
/// and the rest must be valid UTF-8.
pub fn decode_source(raw: &[u8]) -> (r: Result<String, DecodeError>)
    ensures
        r is Ok <==> valid_utf8(without_bom(raw@)),
        r matches Ok(s) ==> s@ == decode_utf8(without_bom(raw@)),
{
    let body: Vec<u8> = strip_bom(raw);
    match utf8_to_string(body.as_slice()) {
        Some(s) => Ok(s),
        None => Err(DecodeError),
    }
}

} // verus!
