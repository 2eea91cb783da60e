use papyrus_complete::splice::{CodeCompleter, SourceEntry, SourceRegistry};
use papyrus_complete::words::word_break_start;

fn registry(text: &str, start: usize, end: usize) -> SourceRegistry {
    SourceRegistry {
        entries: vec![SourceEntry {
            file: String::from("main.rs"),
            text: String::from(text),
            split: start..end,
        }],
        current: String::from("main.rs"),
    }
}

fn completer(text: &str, start: usize, end: usize) -> CodeCompleter {
    let reg = registry(text, start, end);
    assert!(reg.is_well_formed());
    CodeCompleter::build(&reg)
}

#[test]
fn inject_test() {
    let cc = completer("Hello morld", 5, 7); // cut out ' m' such that "Hello" and "orld" is it

    let (s, pos) = cc.inject(", w");

    assert_eq!(&s, "Hello, world");
    assert_eq!(pos, 8);

    let cc = completer("Hello", 5, 5); // inject to end

    let (s, pos) = cc.inject(", world");

    assert_eq!(&s, "Hello, world");
    assert_eq!(pos, 12);

    let cc = completer(", world", 0, 0); // inject at start

    let (s, pos) = cc.inject("Hello");

    assert_eq!(&s, "Hello, world");
    assert_eq!(pos, 5);

    let cc = completer("Hello, worm", 10, 11); // cut less than added

    let (s, pos) = cc.inject("ld");

    assert_eq!(&s, "Hello, world");
    assert_eq!(pos, 12);
}

#[test]
fn composed_source_places_fragment_inside_body() {
    let cc = completer("fn apple() {} \n\n fn main() {  }", 29, 29);

    let (s, pos) = cc.inject("ap");

    assert_eq!(&s, "fn apple() {} \n\n fn main() { ap }");
    assert_eq!(pos, 31);
}

#[test]
fn size_and_cursor_follow_the_split() {
    let base = "abcdefgh";
    for (start, end, frag) in [(0usize, 8usize, "xy"), (2, 6, ""), (3, 3, "12345"), (8, 8, "z")] {
        let cc = completer(base, start, end);
        let (s, pos) = cc.inject(frag);
        assert_eq!(s.len(), base.len() + frag.len() - (end - start));
        assert_eq!(pos, start + frag.len());
        assert_eq!(&s[..start], &base[..start]);
        assert_eq!(&s[start..pos], frag);
        assert_eq!(&s[pos..], &base[end..]);
    }
}

#[test]
fn cursor_counts_bytes_of_multibyte_fragment() {
    let cc = completer("ab", 1, 1);
    let (s, pos) = cc.inject("é");
    assert_eq!(&s, "aéb");
    assert_eq!(pos, 3);

    let cc = completer("xéy", 1, 3);
    let (s, pos) = cc.inject("e");
    assert_eq!(&s, "xey");
    assert_eq!(pos, 2);
}

#[test]
fn missing_current_file_composes_fragment_alone() {
    let mut reg = registry("fn main() {}", 11, 11);
    reg.current = String::from("other.rs");
    let cc = CodeCompleter::build(&reg);
    let (s, pos) = cc.inject("abc");
    assert_eq!(&s, "abc");
    assert_eq!(pos, 3);

    let empty = SourceRegistry { entries: Vec::new(), current: String::from("main.rs") };
    let cc = CodeCompleter::build(&empty);
    let (s, pos) = cc.inject("");
    assert_eq!(&s, "");
    assert_eq!(pos, 0);
}

#[test]
fn build_takes_first_entry_of_current_file() {
    let reg = SourceRegistry {
        entries: vec![
            SourceEntry { file: String::from("a.rs"), text: String::from("aaa"), split: 0..0 },
            SourceEntry { file: String::from("b.rs"), text: String::from("b()"), split: 2..2 },
            SourceEntry { file: String::from("b.rs"), text: String::from("zzz"), split: 0..3 },
        ],
        current: String::from("b.rs"),
    };
    assert!(reg.is_well_formed());
    let cc = CodeCompleter::build(&reg);
    let (s, pos) = cc.inject("x");
    assert_eq!(&s, "b(x)");
    assert_eq!(pos, 3);
}

#[test]
fn registry_rejects_bad_split() {
    assert!(!registry("abc", 2, 1).is_well_formed());
    assert!(!registry("abc", 1, 4).is_well_formed());
    assert!(!registry("é", 1, 1).is_well_formed());
    assert!(registry("é", 0, 2).is_well_formed());
    assert!(registry("", 0, 0).is_well_formed());
}

#[test]
fn word_break_finds_last_word() {
    assert_eq!(CodeCompleter::word_break("let x = a.b"), 10);
    assert_eq!(CodeCompleter::word_break("std::io"), 5);
    assert_eq!(CodeCompleter::word_break("foo"), 0);
    assert_eq!(CodeCompleter::word_break(""), 0);
    assert_eq!(CodeCompleter::word_break("a "), 2);
    assert_eq!(CodeCompleter::word_break("é.xy"), 3);
    assert_eq!(CodeCompleter::word_break("a,b"), 0);
}

#[test]
fn word_break_start_uses_given_breaks() {
    assert_eq!(word_break_start("a,b c", b","), 2);
    assert_eq!(word_break_start("a,b c", b", "), 4);
    assert_eq!(word_break_start("a,b c", b""), 0);
}
