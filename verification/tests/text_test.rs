use zed_core::collections::{VecMap, VecSet};
use zed_core::path::{file_name, join_path, AnyPath, Component, RelPath};
use zed_core::text::{
    blank, chars_of, copy_texts, decimal_text, find_char, find_text, has_prefix, is_whitespace, join, len_utf8,
    lines_of, normalize_line_endings, signed_decimal_text, str_before, str_eq, text_len, text_of,
    trim, trim_end, trim_start, words_of,
};
use zed_core::text_map::TextMap;
use zed_core::text_set::TextSet;

fn rel(parts: &[&str]) -> RelPath {
    RelPath {
        components: parts.iter().map(|part| part.to_string()).collect(),
    }
}

#[test]
fn texts_are_measured_in_bytes() {
    assert_eq!(text_len(""), 0);
    assert_eq!(text_len("a\u{e9}\u{20ac}\u{1f600}"), 1 + 2 + 3 + 4);
    assert_eq!(len_utf8('\u{20ac}'), 3);
    assert!(blank(" \t\n"));
    assert!(!blank(" x "));
}

#[test]
fn white_space_of_all_scripts() {
    // What is white space is what the standard library takes for it.
    for n in 0..0x11_0000u32 {
        if let Some(c) = char::from_u32(n) {
            assert_eq!(is_whitespace(c), c.is_whitespace(), "{:x}", n);
        }
    }
}

#[test]
fn texts_are_ordered_like_their_characters() {
    assert!(str_eq("abc", "abc"));
    assert!(!str_eq("abc", "abd"));
    assert!(str_before("ab", "abc"));
    assert!(str_before("abb", "abc"));
    assert!(!str_before("abc", "abc"));
    assert!(str_before("Z", "a"));
}

#[test]
fn numbers_are_written_in_decimal() {
    assert_eq!(decimal_text(0), "0");
    assert_eq!(decimal_text(18446744073709551615), "18446744073709551615");
    assert_eq!(signed_decimal_text(-9223372036854775808), "-9223372036854775808");
    assert_eq!(signed_decimal_text(7), "7");
}

#[test]
fn lines_words_and_edges() {
    assert_eq!(lines_of("a\r\nb\n\nc"), vec!["a", "b", "", "c"]);
    assert_eq!(lines_of("a\n"), vec!["a"]);
    assert_eq!(lines_of(""), Vec::<String>::new());
    assert_eq!(words_of("  one two\tthree "), vec!["one", "two", "three"]);
    assert_eq!(trim("  x y \n"), "x y");
    assert_eq!(trim_start("  x "), "x ");
    assert_eq!(trim_end("  x "), "  x");
}

#[test]
fn parts_of_texts_are_found() {
    let chars = chars_of("hello world");
    assert_eq!(find_char(&chars, 0, 'o'), 4);
    assert_eq!(find_char(&chars, 5, 'o'), 7);
    assert_eq!(find_char(&chars, 8, 'o'), 11);
    assert_eq!(find_text(&chars, "wor"), Some(6));
    assert_eq!(find_text(&chars, "word"), None);
    assert_eq!(text_of(&chars, 6, 11), "world");
    assert!(has_prefix("hello", "he"));
    assert!(!has_prefix("he", "hello"));
    let parts = vec!["a".to_string(), "b".to_string()];
    assert_eq!(join(&parts, ", "), "a, b");
    assert_eq!(copy_texts(&parts), parts);
}

#[test]
fn line_endings_become_line_feeds() {
    assert_eq!(normalize_line_endings("a\r\nb\rc\nd"), "a\nb\nc\nd");
    assert_eq!(normalize_line_endings("\r\r\n"), "\n\n");
    assert_eq!(normalize_line_endings("plain\n"), "plain\n");
}

#[test]
fn text_map_keeps_the_order_of_first_insertion() {
    let mut map = TextMap::new();
    map.insert("b".to_string(), "1".to_string());
    map.insert("a".to_string(), "2".to_string());
    map.insert("b".to_string(), "3".to_string());
    assert_eq!(map.len(), 2);
    assert_eq!(map.entry(0), (&"b".to_string(), &"3".to_string()));
    assert_eq!(map.get("a"), Some(&"2".to_string()));
    assert_eq!(map.get("c"), None);
    let mut other = map.copy();
    let mut more = TextMap::new();
    more.insert("a".to_string(), "4".to_string());
    more.insert("c".to_string(), "5".to_string());
    other.extend(&more);
    assert_eq!(other.len(), 3);
    assert_eq!(other.get("a"), Some(&"4".to_string()));
    assert_eq!(map.get("a"), Some(&"2".to_string()));
}

#[test]
fn text_set_is_sorted() {
    let mut set = TextSet::new();
    for item in ["pear", "apple", "pear", "fig"] {
        set.insert(item.to_string());
    }
    assert_eq!(set.into_texts(), vec!["apple", "fig", "pear"]);
}

#[test]
fn sets_and_maps_by_comparison() {
    let mut set: VecSet<u64> = VecSet::new();
    assert!(set.is_empty());
    assert!(set.insert(3));
    assert!(!set.insert(3));
    assert!(set.insert(4));
    assert!(set.contains(&4));
    assert!(set.remove(&3));
    assert!(!set.remove(&3));
    assert_eq!(set.to_vec(), vec![4]);
    let all = VecSet::from_items(&vec![1u64, 2, 3, 2]);
    let some = VecSet::from_items(&vec![2u64]);
    let mut inside = all.filtered(&some, true).to_vec();
    inside.sort();
    assert_eq!(inside, vec![2]);
    let mut outside = all.filtered(&some, false).to_vec();
    outside.sort();
    assert_eq!(outside, vec![1, 3]);
    let mut map: VecMap<u64, u32> = VecMap::new();
    assert_eq!(map.insert(1, 10), None);
    assert_eq!(map.insert(1, 11), Some(10));
    assert_eq!(map.get(&1), Some(&11));
    assert_eq!(map.keys(), vec![1]);
    assert_eq!(map.remove(&1), Some(11));
    assert!(!map.contains_key(&1));
}

#[test]
fn relative_paths() {
    let path = rel(&["src", "a", "b.rs"]);
    assert!(path.starts_with(&rel(&["src", "a"])));
    assert!(!path.starts_with(&rel(&["src", "ab"])));
    assert!(rel(&["src", "a"]).is_parent_of(&path));
    assert!(!rel(&["src"]).is_parent_of(&path));
    assert_eq!(path.parent().unwrap().components, vec!["src", "a"]);
    assert!(rel(&[]).parent().is_none());
    assert_eq!(path.file_name(), Some(&"b.rs".to_string()));
    assert!(rel(&["a"]).comes_before(&rel(&["a", "b"])));
    assert!(rel(&["a", "z"]).comes_before(&rel(&["b"])));
    assert!(!rel(&["b"]).comes_before(&rel(&["b"])));
}

#[test]
fn paths_as_texts() {
    let path = AnyPath {
        absolute: true,
        components: vec![Component::Normal("usr".to_string()), Component::Normal("bin".to_string())],
    };
    assert_eq!(path.to_text(), "/usr/bin");
    assert_eq!(file_name(&path), "bin");
    let up = AnyPath {
        absolute: false,
        components: vec![Component::ParentDir, Component::Normal("x".to_string())],
    };
    assert_eq!(up.to_text(), "../x");
    assert_eq!(up.parent().unwrap().to_text(), "..");
    assert_eq!(join_path("/usr", "bin"), "/usr/bin");
    assert_eq!(join_path("/usr/", "bin"), "/usr/bin");
    assert_eq!(join_path("/usr", "/bin"), "/bin");
    assert_eq!(join_path("", "bin"), "bin");
}
