use bookmarks::text::{char_is_whitespace, clone_texts, str_is_blank, strip_blanks, tally, texts_contain};

fn texts(items: &[&str]) -> Vec<String> {
    items.iter().map(|s| s.to_string()).collect()
}

#[test]
fn whitespace_agrees_with_the_standard_library_on_every_char() {
    let mut n: u32 = 0;
    let mut seen = 0u32;
    while n <= 0x10FFFF {
        if let Some(c) = char::from_u32(n) {
            assert_eq!(char_is_whitespace(c), c.is_whitespace(), "at U+{n:04X}");
            if c.is_whitespace() {
                seen += 1;
            }
        }
        n += 1;
    }
    assert_eq!(seen, 25);
}

#[test]
fn blank_means_empty_after_trimming() {
    for s in ["", " ", "\t", "\n", " \t\r\n", "\u{a0}", "\u{2003}\u{3000}", "\u{85}\u{1680}"] {
        assert!(str_is_blank(s), "{s:?}");
        assert!(s.trim().is_empty());
    }
    for s in ["x", " x", "x ", " x ", "\u{200b}", "_", "\u{180e}", "0"] {
        assert!(!str_is_blank(s), "{s:?}");
        assert!(!s.trim().is_empty());
    }
}

#[test]
fn strip_blanks_keeps_order_and_duplicates() {
    assert_eq!(strip_blanks(texts(&["x", " ", "y"])), texts(&["x", "y"]));
    assert_eq!(strip_blanks(texts(&["", "\t", "  "])), Vec::<String>::new());
    assert_eq!(strip_blanks(vec![]), Vec::<String>::new());
    assert_eq!(strip_blanks(texts(&["b", "a", "", "b", " a "])), texts(&["b", "a", "b", " a "]));
}

#[test]
fn strip_blanks_agrees_with_retain_on_trim() {
    let input = texts(&["x", " ", "y", "", "\u{a0}", " z", "\u{200b}", "\n\n"]);
    let mut expected = input.clone();
    expected.retain(|t| !t.trim().is_empty());
    assert_eq!(strip_blanks(input), expected);
}

#[test]
fn texts_contain_compares_whole_texts() {
    let tags = texts(&["rust", "web"]);
    assert!(texts_contain(&tags, &"rust".to_string()));
    assert!(texts_contain(&tags, &"web".to_string()));
    assert!(!texts_contain(&tags, &"Rust".to_string()));
    assert!(!texts_contain(&tags, &"rus".to_string()));
    assert!(!texts_contain(&vec![], &"rust".to_string()));
}

#[test]
fn clone_texts_copies() {
    let tags = texts(&["a", "", "b"]);
    assert_eq!(clone_texts(&tags), tags);
    assert_eq!(clone_texts(&[]), Vec::<String>::new());
}

#[test]
fn tally_counts_each_distinct_text_once() {
    let counts = tally(&texts(&["a", "b", "a", "a", "c"])).unwrap();
    assert_eq!(
        counts,
        vec![("a".to_string(), 3), ("b".to_string(), 1), ("c".to_string(), 1)]
    );
    assert_eq!(tally(&[]).unwrap(), vec![]);
    assert_eq!(tally(&texts(&["", ""])).unwrap(), vec![("".to_string(), 2)]);
}
