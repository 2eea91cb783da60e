//! Splicing a fragment into the current file's accumulated source.
use std::ops::Range;
use vstd::prelude::*;
use vstd::string::StringExecFns;
use vstd::utf8::*;

use crate::words::{is_word_start, word_break_start};

verus! {

broadcast use vstd::utf8::group_utf8_lib;

/// The bytes of `base` before `start`, then `fragment`, then the bytes of
/// `base` from `end` on.
pub open spec fn spliced(base: Seq<u8>, start: int, end: int, fragment: Seq<u8>) -> Seq<u8> {
    base.subrange(0, start) + fragment + base.subrange(end, base.len() as int)
}

/// `[start, end)` is a range of `text`'s UTF-8 bytes that starts and ends on
/// character boundaries.
pub open spec fn valid_split(text: Seq<char>, start: int, end: int) -> bool {
    let b = encode_utf8(text);
    &&& 0 <= start <= end <= b.len()
    &&& is_char_boundary(b, start)
    &&& is_char_boundary(b, end)
}

/// Encoding a concatenation is concatenating the encodings.
proof fn lemma_encode_utf8_concat(a: Seq<char>, b: Seq<char>)
    ensures
        encode_utf8(a + b) == encode_utf8(a) + encode_utf8(b),
    decreases a.len(),
{
    if a.len() == 0 {
        assert(a + b =~= b);
    } else {
        assert((a + b).drop_first() =~= a.drop_first() + b);
        lemma_encode_utf8_concat(a.drop_first(), b);
        assert(encode_utf8(a + b) =~= encode_utf8(a) + encode_utf8(b));
    }
}

/// The logical state of a [`CodeCompleter`]: the base text and the split
/// range, in bytes of the base text's UTF-8 encoding.
pub ghost struct ComposerView {
    pub base: Seq<char>,
    pub start: nat,
    pub end: nat,
}

/// Completion state for code: the last known-good source and the byte range
/// of it that live input replaces.
pub struct CodeCompleter {
    last_code: String,
    split: Range<usize>,
}

impl View for CodeCompleter {
    type V = ComposerView;

    closed spec fn view(&self) -> ComposerView {
        ComposerView { base: self.last_code@, start: self.split.start as nat, end: self.split.end as nat }
    }
}

/// The bytes that end a completable word in code: space, colon and period,
/// so that whitespace and qualified paths (`a.b`, `a::b`) both end it.
pub open spec fn code_word_breaks() -> Seq<u8> {
    seq![0x20u8, 0x3Au8, 0x2Eu8]
}

/// One logical file of the session: its identifier, its accumulated text,
/// and the byte range of that text where live input is spliced in.
pub struct SourceEntry {
    pub file: String,
    pub text: String,
    pub split: Range<usize>,
}

/// The session's accumulated sources, and which file is current.
pub struct SourceRegistry {
    pub entries: Vec<SourceEntry>,
    pub current: String,
}

/// Entry `i` is the first whose identifier is `id`.
pub open spec fn is_first_entry(entries: Seq<SourceEntry>, id: Seq<char>, i: int) -> bool {
    &&& 0 <= i < entries.len()
    &&& entries[i].file@ == id
    &&& forall|j: int| 0 <= j < i ==> entries[j].file@ != id
}

/// Some entry has the identifier `id`.
pub open spec fn has_entry(entries: Seq<SourceEntry>, id: Seq<char>) -> bool {
    exists|i: int| 0 <= i < entries.len() && entries[i].file@ == id
}

/// The composer state taken from one entry.
pub open spec fn entry_view(e: SourceEntry) -> ComposerView {
    ComposerView { base: e.text@, start: e.split.start as nat, end: e.split.end as nat }
}

/// The composer state of an empty source with nothing cut.
pub open spec fn empty_view() -> ComposerView {
    ComposerView { base: Seq::empty(), start: 0, end: 0 }
}

/// The composer state for the registry's current file: the first entry with
/// that identifier, or an empty source when there is none.
pub open spec fn registry_view(reg: SourceRegistry) -> ComposerView {
    let entries = reg.entries@;
    let id = reg.current@;
    if exists|i: int| is_first_entry(entries, id, i) {
        entry_view(entries[choose|i: int| is_first_entry(entries, id, i)])
    } else {
        empty_view()
    }
}

/// When the registry has no entry for the current file, splicing any
/// fragment behaves as on an empty source with nothing cut: the composed
/// text is the fragment alone and the cursor stands right after it.
pub proof fn lemma_missing_entry_composes_fragment(reg: SourceRegistry, fragment: Seq<char>)
    requires
        !has_entry(reg.entries@, reg.current@),
    ensures
        registry_view(reg) == empty_view(),
        spliced(
            encode_utf8(registry_view(reg).base),
            registry_view(reg).start as int,
            registry_view(reg).end as int,
            encode_utf8(fragment),
        ) == encode_utf8(fragment),
        registry_view(reg).start + encode_utf8(fragment).len() == encode_utf8(fragment).len(),
{
    assert(!(exists|i: int| is_first_entry(reg.entries@, reg.current@, i)));
    assert(encode_utf8(Seq::<char>::empty()) =~= Seq::<u8>::empty());
    assert(spliced(Seq::empty(), 0, 0, encode_utf8(fragment)) =~= encode_utf8(fragment));
}

impl SourceEntry {
    /// The split range lies within the text, on character boundaries.
    pub open spec fn wf(&self) -> bool {
        valid_split(self.text@, self.split.start as int, self.split.end as int)
    }

    /// Tests whether the split range lies within the text, on character
    /// boundaries.
    pub fn is_well_formed(&self) -> (r: bool)
        ensures
            r == self.wf(),
    {
        let text: &str = self.text.as_str();
        let start: usize = self.split.start;
        let end: usize = self.split.end;
        start <= end && end <= text.as_bytes().len() && text.is_char_boundary(start)
            && text.is_char_boundary(end)
    }
}

impl SourceRegistry {
    /// Every entry is well formed.
    pub open spec fn wf(&self) -> bool {
        forall|i: int| 0 <= i < self.entries@.len() ==> (#[trigger] self.entries@[i]).wf()
    }

    /// Tests whether every entry is well formed.
    pub fn is_well_formed(&self) -> (r: bool)
        ensures
            r == self.wf(),
    {
        let mut i: usize = 0;
        while i < self.entries.len()
            invariant
                0 <= i <= self.entries@.len(),
                forall|j: int| 0 <= j < i ==> (#[trigger] self.entries@[j]).wf(),
            decreases self.entries@.len() - i,
        {
            if !self.entries[i].is_well_formed() {
                return false;
            }
            i = i + 1;
        }
        true
    }
}

impl CodeCompleter {
    /// The split range lies within the base text, on character boundaries.
    pub open spec fn wf(&self) -> bool {
        valid_split(self@.base, self@.start as int, self@.end as int)
    }

    /// Build the completion state for the registry's current file. When the
    /// current file has no entry, the state is an empty source with nothing
    /// cut, so that completion works against nothing rather than failing.
    pub fn build(registry: &SourceRegistry) -> (r: Self)
        requires
            registry.wf(),
        ensures
            r.wf(),
            r@ == registry_view(*registry),
            !has_entry(registry.entries@, registry.current@) ==> r@ == empty_view(),
    {
        let ghost entries = registry.entries@;
        let ghost id = registry.current@;
        let mut i: usize = 0;
        while i < registry.entries.len()
            invariant
                registry.wf(),
                entries == registry.entries@,
                id == registry.current@,
                0 <= i <= entries.len(),
                forall|j: int| 0 <= j < i ==> (#[trigger] entries[j]).file@ != id,
            decreases entries.len() - i,
        {
            let entry: &SourceEntry = &registry.entries[i];
            if entry.file == registry.current {
                proof {
                    assert(is_first_entry(entries, id, i as int));
                    let k = choose|k: int| is_first_entry(entries, id, k);
                    assert(k == i) by {
                        if k < i {
                            assert(entries[k].file@ != id);
                        } else if k > i {
                            assert(entries[i as int].file@ != id);
                        }
                    }
                    assert(registry.entries@[i as int].wf());
                }
                return CodeCompleter {
                    last_code: entry.text.clone(),
                    split: Range { start: entry.split.start, end: entry.split.end },
                };
            }
            i = i + 1;
        }
        proof {
            assert(!(exists|k: int| is_first_entry(entries, id, k)));
            assert(encode_utf8(Seq::<char>::empty()) =~= Seq::<u8>::empty());
        }
        CodeCompleter { last_code: String::new(), split: Range { start: 0, end: 0 } }
    }

    /// Returns the start position of the last word of `line` that is broken
    /// in the sense of code.
    pub fn word_break(line: &str) -> (r: usize)
        ensures
            is_word_start(encode_utf8(line@), code_word_breaks(), r as int),
    {
        // space, colon, period
        let breaks: [u8; 3] = [0x20u8, 0x3Au8, 0x2Eu8];
        proof {
            assert(breaks@ =~= code_word_breaks());
        }
        word_break_start(line, &breaks)
    }

    /// Inject code into the current source code and return the amended code,
    /// along with the byte position to complete from.
    pub fn inject(&self, injection: &str) -> (r: (String, usize))
        requires
            self.wf(),
            self@.start + encode_utf8(injection@).len() <= usize::MAX,
        ensures
            encode_utf8(r.0@) == spliced(
                encode_utf8(self@.base),
                self@.start as int,
                self@.end as int,
                encode_utf8(injection@),
            ),
            encode_utf8(r.0@).len() == encode_utf8(self@.base).len() + encode_utf8(injection@).len()
                - (self@.end - self@.start),
            r.1 == self@.start + encode_utf8(injection@).len(),
    {
        let code: &str = self.last_code.as_str();
        let (prefix, _) = code.split_at(self.split.start);
        let (_, suffix) = code.split_at(self.split.end);
        let mut s: String = prefix.to_owned();
        s.append(injection);
        s.append(suffix);
        proof {
            lemma_encode_utf8_concat(prefix@, injection@);
            lemma_encode_utf8_concat(prefix@ + injection@, suffix@);
        }
        let pos: usize = self.split.start + injection.len();
        (s, pos)
    }
}

} // verus!
