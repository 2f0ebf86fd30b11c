use ghpending::order::{sort_names, sort_unique_names};
use ghpending::schedule::{Window, MAX_IN_FLIGHT};
use ghpending::text::{
    decimal_of, join_all, less, same_ignoring_case, split_at_first, split_on, to_lower, trim,
    trim_end_slashes, trim_slashes, unless_blank, white,
};
use ghpending::name_map::NameMap;

#[test]
fn white_space_is_that_of_the_standard_library() {
    for n in 0..=0x10ffffu32 {
        if let Some(c) = char::from_u32(n) {
            assert_eq!(white(c), c.is_whitespace(), "{n:x}");
        }
    }
}

#[test]
fn trimming_takes_both_ends() {
    assert_eq!(trim(" \t a b\n\u{3000}"), "a b");
    assert_eq!(trim("   "), "");
    assert_eq!(trim_slashes("//a/b/"), "a/b");
    assert_eq!(trim_end_slashes("/a//"), "/a");
    assert_eq!(unless_blank(Some(" a ")).as_deref(), Some("a"));
    assert_eq!(unless_blank(Some(" ")), None);
    assert_eq!(unless_blank(None), None);
}

#[test]
fn case_is_that_of_ascii_letters() {
    assert_eq!(to_lower("AbÓ-Z[@"), "abÓ-z[@");
    assert!(same_ignoring_case("ME", "me"));
    assert!(!same_ignoring_case("Ó", "ó"));
}

#[test]
fn splitting_finds_the_first() {
    assert_eq!(split_at_first("a/repos/b/repos/c", "/repos/"), Some(("a", "b/repos/c")));
    assert_eq!(split_at_first("abc", "/"), None);
    assert_eq!(split_on("a,,b,", ','), vec!["a", "", "b", ""]);
    assert_eq!(split_on("", ','), vec![""]);
    assert_eq!(join_all(&vec!["a".to_owned(), "b".to_owned()], "; "), "a; b");
    assert_eq!(join_all(&vec![], "; "), "");
}

#[test]
fn numbers_are_written_in_decimal() {
    assert_eq!(decimal_of(0), "0");
    assert_eq!(decimal_of(1090), "1090");
    assert_eq!(decimal_of(u64::MAX), "18446744073709551615");
}

#[test]
fn texts_are_ordered_by_code_points() {
    let words = ["", "a", "ab", "b", "B", "é", "\u{ffff}", "\u{10000}"];
    for a in words {
        for b in words {
            assert_eq!(less(a, b), a < b);
        }
    }
    let mut sorted: Vec<String> = words.iter().map(|w| w.to_string()).collect();
    let mine = sort_names(words.iter().map(|w| w.to_string()).collect());
    sorted.sort();
    assert_eq!(mine, sorted);
    let twice = vec!["b".to_owned(), "a".to_owned(), "b".to_owned()];
    assert_eq!(sort_unique_names(twice), vec!["a", "b"]);
}

#[test]
fn windows_bound_what_is_under_way() {
    let mut window = Window::new(6);
    for i in 0..MAX_IN_FLIGHT {
        assert_eq!(window.start(), Some(i));
    }
    assert_eq!(window.start(), None);
    window.finish_one();
    assert_eq!(window.start(), Some(4));
    assert!(!window.is_idle());
}

#[test]
fn name_maps_keep_the_last_value() {
    let mut map: NameMap<u32> = NameMap::new();
    assert!(map.is_empty());
    map.insert("a".into(), 1);
    map.insert("b".into(), 2);
    map.insert("a".into(), 3);
    assert_eq!(map.get("a"), Some(&3));
    assert_eq!(map.get("c"), None);
    assert!(map.contains("b"));
    if let Some(value) = map.get_mut("b") {
        *value = 7;
    }
    assert_eq!(map.entries(), &vec![("a".to_owned(), 3), ("b".to_owned(), 7)]);
}
