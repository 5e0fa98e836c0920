use rokr::message::{ContentBlock, Message, Role, Usage};
use rokr::text::{
    begins_with, byte_len_of, comes_before, decimal_of, decimal_of_i32, has, is_white, joined,
    lines_of, lowered, parsed_u32, path_join, sorted_distinct, split_first_word,
    split_once_at, trimmed, trimmed_end, trimmed_end_char, trimmed_start, without_ending,
    without_prefix, words_of,
};
use rokr::text_map::TextMap;

const SAMPLES: [&str; 12] = [
    "",
    " ",
    "plain",
    "  both ends \t\n",
    "a\nb\r\nc\n",
    "\r\n\r\n",
    "two  words\u{a0}and\u{2003}more",
    "größe 漢字 🦀",
    "a=b=c",
    "\n",
    "x\r",
    "tab\tsep",
];

#[test]
fn white_space_is_unicode_s() {
    for code in 0..=0x10ffffu32 {
        if let Some(c) = char::from_u32(code) {
            assert_eq!(is_white(c), c.is_whitespace(), "U+{code:04X}");
        }
    }
}

#[test]
fn texts_are_cut_like_the_standard_library_cuts_them() {
    for s in SAMPLES {
        assert_eq!(trimmed(s), s.trim());
        assert_eq!(trimmed_start(s), s.trim_start());
        assert_eq!(trimmed_end(s), s.trim_end());
        assert_eq!(lines_of(s), s.lines().collect::<Vec<_>>());
        assert_eq!(words_of(s), s.split_whitespace().collect::<Vec<_>>());
        assert_eq!(lowered(s), s.to_ascii_lowercase());
        assert_eq!(byte_len_of(s), s.len() as u128);
        assert_eq!(trimmed_end_char(s, '\n'), s.trim_end_matches('\n'));
        assert_eq!(
            split_once_at(s, '='),
            s.split_once('=').map(|(a, b)| (a.to_string(), b.to_string()))
        );
        for t in SAMPLES {
            assert_eq!(comes_before(s, t), s < t, "{s:?} {t:?}");
            assert_eq!(has(s, t), s.contains(t), "{s:?} {t:?}");
            assert_eq!(begins_with(s, t), s.starts_with(t));
            assert_eq!(without_prefix(s, t), s.strip_prefix(t).map(|r| r.to_string()));
        }
    }
    assert_eq!(lowered("ÄBC"), "Äbc");
}

#[test]
fn numbers_are_written_and_read_in_decimal() {
    for n in [0u128, 9, 10, 12345, u128::MAX] {
        assert_eq!(decimal_of(n), n.to_string());
    }
    for n in [0, -1, 42, i32::MIN, i32::MAX] {
        assert_eq!(decimal_of_i32(n), n.to_string());
    }
    for s in ["0", "007", "+5", "+", "", "-1", "4294967295", "4294967296", "1a", " 1"] {
        assert_eq!(parsed_u32(s), s.parse::<u32>().ok(), "{s:?}");
    }
}

#[test]
fn lists_are_joined_sorted_and_made_distinct() {
    let v = |items: &[&str]| items.iter().map(|s| s.to_string()).collect::<Vec<String>>();
    assert_eq!(joined(&v(&[]), ", "), "");
    assert_eq!(joined(&v(&["a"]), ", "), "a");
    assert_eq!(joined(&v(&["a", "b", ""]), ", "), "a, b, ");
    assert_eq!(sorted_distinct(&v(&["b", "a", "b", "B", "ab", ""])), v(&["", "B", "a", "ab", "b"]));
}

#[test]
fn paths_are_joined_and_endings_removed() {
    assert_eq!(path_join("/a", "b"), "/a/b");
    assert_eq!(path_join("/a/", "b"), "/a/b");
    assert_eq!(path_join("", "b"), "b");
    assert_eq!(path_join("/a", "/b"), "/b");
    assert_eq!(without_ending("a.md", ".md"), Some("a".to_string()));
    assert_eq!(without_ending(".md", ".md"), None);
    assert_eq!(without_ending("a.mdx", ".md"), None);
    assert_eq!(split_first_word("cmd\trest of it"), ("cmd".to_string(), "rest of it".to_string()));
    assert_eq!(split_first_word("cmd"), ("cmd".to_string(), String::new()));
}

#[test]
fn maps_keep_one_value_for_each_key() {
    let mut a: TextMap<u32> = TextMap::new();
    a.insert("x".to_string(), 1);
    a.insert("y".to_string(), 2);
    a.insert("x".to_string(), 3);
    assert_eq!(a.len(), 2);
    assert_eq!(a.get("x"), Some(&3));
    let mut b: TextMap<u32> = TextMap::new();
    b.insert("y".to_string(), 9);
    b.insert("z".to_string(), 8);
    a.absorb(b);
    assert_eq!(a.get("x"), Some(&3));
    assert_eq!(a.get("y"), Some(&9));
    assert_eq!(a.get("z"), Some(&8));
    assert_eq!(a.get("w"), None);
}

#[test]
fn messages_give_their_text() {
    assert_eq!(Message::user_text("a").role, Role::User);
    assert_eq!(Message::system_text("a").role, Role::System);
    assert_eq!(Message::assistant_text("a").text(), "a");
    let mixed = Message {
        role: Role::Assistant,
        content: vec![
            ContentBlock::Text { text: "one".to_string(), cache_control: None },
            ContentBlock::ToolUse {
                id: "1".to_string(),
                name: "n".to_string(),
                input: "{}".to_string(),
                cache_control: None,
            },
            ContentBlock::Text { text: "two".to_string(), cache_control: None },
        ],
    };
    assert!(mixed.text().contains("one") && mixed.text().contains("two"));
    assert!(!Usage::default().reported());
}

#[test]
fn a_map_counts_its_keys() {
    let mut map: TextMap<u32> = TextMap::new();
    assert_eq!(map.len(), 0);
    map.insert("a".to_string(), 1);
    map.insert("b".to_string(), 2);
    assert_eq!(map.len(), 2);
    map.insert("a".to_string(), 3);
    assert_eq!(map.len(), 2);
    let mut other: TextMap<u32> = TextMap::new();
    other.insert("b".to_string(), 4);
    other.insert("c".to_string(), 5);
    map.absorb(other);
    assert_eq!(map.len(), 3);
    assert_eq!(map.get("b"), Some(&4));
}
