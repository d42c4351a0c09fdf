use aube::text;
use aube::text_map::TextMap;

const SAMPLES: [&str; 14] = [
    "", "a", "abc", " a b ", "a/b/c", "/a/", "ÄÖ ü", "a\r\nb\n", "\n\n", "x\u{3000}", "\u{85}y\u{a0}",
    "a:b:c", "==", "\u{1f600}/z",
];

#[test]
fn text_functions_agree_with_the_standard_library() {
    for s in SAMPLES {
        assert_eq!(text::to_chars(s), s.chars().collect::<Vec<char>>());
        assert_eq!(text::trim(s), s.trim());
        assert_eq!(text::trim_end_matches(s, '/'), s.trim_end_matches('/'));
        assert_eq!(text::trim_start_matches(s, '/'), s.trim_start_matches('/'));
        assert_eq!(text::next_word(s).as_deref(), s.split_whitespace().next());
        assert_eq!(text::replace(s, '/', "%2F"), s.replace('/', "%2F"));
        assert_eq!(text::to_ascii_lowercase(s), s.to_ascii_lowercase());
        assert_eq!(text::lines(s), s.lines().collect::<Vec<&str>>());
        assert_eq!(text::split(s, '/'), s.split('/').collect::<Vec<&str>>());
        for p in SAMPLES {
            assert_eq!(text::same_text(s, p), s == p);
            assert_eq!(text::comes_before(s, p), s < p, "{s:?} {p:?}");
            assert_eq!(text::starts_with(s, p), s.starts_with(p));
            assert_eq!(text::ends_with(s, p), s.ends_with(p));
            assert_eq!(text::strip_prefix(s, p).as_deref(), s.strip_prefix(p));
            assert_eq!(text::strip_suffix(s, p).as_deref(), s.strip_suffix(p));
            assert_eq!(text::cat(s, p), format!("{s}{p}"));
        }
        for c in ['/', ':', '=', 'ü'] {
            let pair = |o: Option<(&str, &str)>| o.map(|(a, b)| (a.to_string(), b.to_string()));
            assert_eq!(text::split_once(s, c), pair(s.split_once(c)));
            assert_eq!(text::rsplit_once(s, c), pair(s.rsplit_once(c)));
        }
    }
}

#[test]
fn white_space_is_the_standard_librarys() {
    for n in 0..=0x10ffffu32 {
        if let Some(c) = char::from_u32(n) {
            let s = c.to_string();
            assert_eq!(text::trim(&s).is_empty(), c.is_whitespace(), "{n:x}");
        }
    }
}

#[test]
fn numbers_are_read_and_written() {
    for s in ["", "+", "0", "+7", "-7", "007", "12", " 1", "1x", "18446744073709551615", "18446744073709551616", "999999999999999999999"] {
        assert_eq!(text::parse_usize(s), s.parse::<usize>().ok(), "{s}");
    }
    for n in [0, 9, 10, 99, 100, 12345, u64::MAX] {
        assert_eq!(text::format_u64(n), n.to_string());
    }
    let parts: Vec<String> = ["a", "b", "c"].iter().map(|s| s.to_string()).collect();
    assert_eq!(text::join(&parts, 0, ", "), "a, b, c");
    assert_eq!(text::join(&parts, 2, ", "), "c");
    assert_eq!(text::join(&parts, 3, ", "), "");
    assert_eq!(text::from_chars(&vec!['a', 'ü', 'c'], 1, 3), "üc");
}

#[test]
fn a_map_keeps_its_keys_in_order() {
    let mut m: TextMap<u32> = TextMap::new();
    assert!(m.is_empty());
    for (i, k) in ["m", "a", "z", "ab", "Z", "ü"].iter().enumerate() {
        assert_eq!(m.insert(k.to_string(), i as u32), None);
    }
    assert_eq!(m.insert("a".to_string(), 10), Some(1));
    assert_eq!(m.keys(), ["Z", "a", "ab", "m", "z", "ü"]);
    assert_eq!(m.len(), 6);
    assert_eq!(m.key_at(1), "a");
    assert_eq!(m.value_at(1), &10);
    m.set_at(1, 11);
    assert_eq!(m.get("a"), Some(&11));
    assert_eq!(m.get("b"), None);
    assert!(m.contains_key("ab"));
    assert_eq!(m.remove("ab"), Some(3));
    assert_eq!(m.remove("ab"), None);
    m.retain_keys(&vec!["z".to_string(), "none".to_string(), "Z".to_string()]);
    assert_eq!(m.keys(), ["Z", "z"]);
}
