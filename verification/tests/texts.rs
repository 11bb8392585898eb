use v9r::text::{
    begins_with, begins_with_char, cat, cat3, chars_of, clone_texts, decimal_text, ends_with,
    has_char, has_text, is_empty_text, join_texts, owned, same_text, signed_text, split_text,
    text_between, text_in, text_of, to_lower, trim,
};

#[test]
fn texts_agree_with_std() {
    for s in ["", " ", "a", "  a b\t", "\u{a0}x\u{2003}", "//", "a/b//c", "\u{e9}t\u{e9}", "ABC z"] {
        assert_eq!(trim(s), s.trim(), "{s:?}");
        assert_eq!(split_text(s, '/'), s.split('/').collect::<Vec<_>>(), "{s:?}");
        assert_eq!(to_lower(s), s.to_ascii_lowercase(), "{s:?}");
        assert_eq!(chars_of(s), s.chars().collect::<Vec<_>>());
        assert_eq!(text_of(&chars_of(s)), s);
        assert_eq!(owned(s), s);
        assert_eq!(is_empty_text(s), s.is_empty());
        for t in ["", "a", "/", "b//", "\u{e9}", " "] {
            assert_eq!(has_text(s, t), s.contains(t), "{s:?} {t:?}");
            assert_eq!(begins_with(s, t), s.starts_with(t), "{s:?} {t:?}");
            assert_eq!(ends_with(s, t), s.ends_with(t), "{s:?} {t:?}");
            assert_eq!(same_text(s, t), s == t);
            assert_eq!(cat(s, t), format!("{s}{t}"));
            assert_eq!(cat3(s, t, s), format!("{s}{t}{s}"));
        }
        assert_eq!(has_char(s, '/'), s.contains('/'));
        assert_eq!(begins_with_char(s, ' '), s.starts_with(' '));
    }
}

#[test]
fn every_white_space_of_std_is_trimmed() {
    for n in 0..0x11_0000u32 {
        if let Some(c) = char::from_u32(n) {
            let s = c.to_string();
            assert_eq!(trim(&s).is_empty(), c.is_whitespace(), "{n:x}");
        }
    }
}

#[test]
fn numbers_are_written_out() {
    for n in [0, 7, 10, 4_294_967_296, u64::MAX] {
        assert_eq!(decimal_text(n), n.to_string());
    }
    for n in [0, -1, i64::MIN, i64::MAX] {
        assert_eq!(signed_text(n), n.to_string());
    }
}

#[test]
fn pieces_of_text() {
    let v: Vec<String> = vec!["a".to_string(), "b".to_string()];
    assert_eq!(join_texts(&v, ", "), "a, b");
    assert_eq!(join_texts(&Vec::new(), ","), "");
    assert!(text_in("b", &v));
    assert!(!text_in("c", &v));
    assert_eq!(clone_texts(&v), v);
    assert_eq!(text_between(&chars_of("\u{e9}abc"), 1, 3), "ab");
}
