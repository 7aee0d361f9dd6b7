use attic::key_map::{key_set, KeyMap};
use attic::text::{decimal_text, join, parse_u64, second_word, split_once, starts_with};

#[test]
fn reading_an_on_wire_hash_gives_the_hash_back() {
    for seed in [&b""[..], b"a", b"some chunk"] {
        let hash = attic::hash::Hash::sha256_from_bytes(seed);
        let text = hash.to_typed_base16();
        assert_eq!(attic::hash::Hash::from_typed_base16(&text), Some(hash));
        let upper = format!("sha256:{}", text[7..].to_uppercase());
        assert_eq!(attic::hash::Hash::from_typed_base16(&upper), Some(hash));
    }
}

#[test]
fn texts_that_are_no_on_wire_hash_are_rejected() {
    let text = attic::hash::Hash::sha256_from_bytes(b"a").to_typed_base16();
    assert_eq!(attic::hash::Hash::from_typed_base16(""), None);
    assert_eq!(attic::hash::Hash::from_typed_base16(&text[7..]), None);
    assert_eq!(attic::hash::Hash::from_typed_base16(&text[..70]), None);
    assert_eq!(attic::hash::Hash::from_typed_base16(&text.replace("sha256", "sha512")), None);
    let bad_digit = format!("{}g", &text[..70]);
    assert_eq!(attic::hash::Hash::from_typed_base16(&bad_digit), None);
}

#[test]
fn different_hashes_have_different_on_wire_forms() {
    let a = attic::hash::Hash::sha256_from_bytes(b"a");
    let b = attic::hash::Hash::sha256_from_bytes(b"b");
    assert_ne!(a.to_typed_base16(), b.to_typed_base16());
}

#[test]
fn numbers_survive_being_written_and_read() {
    for n in [0, 1, 9, 10, 99, 100, 31_536_000, u64::MAX] {
        let text = decimal_text(n);
        assert_eq!(text, n.to_string());
        assert_eq!(parse_u64(&text), Some(n));
    }
    for text in ["", "+", "-1", " 1", "1 ", "1a", "18446744073709551616", "++1"] {
        assert_eq!(parse_u64(text), text.parse::<u64>().ok());
    }
    assert_eq!(parse_u64("+007"), Some(7));
}

#[test]
fn texts_are_taken_apart_and_put_together() {
    assert_eq!(split_once("a:b:c", ':'), Some(("a".to_owned(), "b:c".to_owned())));
    assert_eq!(split_once("abc", ':'), None);
    assert!(starts_with("sqlite://x", "sqlite:"));
    assert!(!starts_with("sql", "sqlite:"));
    assert_eq!(join(&vec!["a".to_owned(), "b".to_owned()], " "), "a b");
    assert_eq!(join(&vec![], " "), "");
    assert_eq!(second_word("GET\u{3000}/x HTTP/1.1"), Some("/x".to_owned()));
    assert_eq!(second_word(" GET "), None);
}

#[test]
fn maps_keep_one_value_for_each_key() {
    let mut map: KeyMap<&str, i32> = KeyMap::from_entries(vec![("a", 1), ("b", 2), ("a", 3)]);
    assert_eq!(map.len(), 2);
    assert_eq!(map.get(&"a"), Some(&3));
    map.insert("c", 4);
    map.remove(&"b");
    map.remove(&"b");
    assert!(!map.contains_key(&"b"));
    let map = map.retain(|key: &&str, _: &i32| *key != "a");
    assert_eq!(map.into_entries(), vec![("c", 4)]);
    let mut set = key_set(vec!["x", "y", "x"]);
    assert_eq!(set.len(), 2);
    set.clear();
    assert_eq!(set.len(), 0);
}

#[test]
fn keys_with_the_same_digest_are_told_apart() {
    // 'b' is one more than 'a', and '#' is 31 less than 'B'.
    let mut map: KeyMap<String, i32> = KeyMap::new();
    map.insert("aB".to_owned(), 1);
    map.insert("b#".to_owned(), 2);
    assert_eq!(map.get(&"aB".to_owned()), Some(&1));
    assert_eq!(map.get(&"b#".to_owned()), Some(&2));
    map.remove(&"aB".to_owned());
    assert_eq!(map.get(&"aB".to_owned()), None);
    assert_eq!(map.get(&"b#".to_owned()), Some(&2));
}
