use std::collections::HashSet;

use rogic_memory::Text;

#[test]
fn test_simple_text() {
    let text = Text::new("test");

    assert_eq!(&text.to_string(), "test");
    assert_eq!(text.get_utf8_length(), 4);
    assert_eq!(text.get_chars_count(), 4);
}

#[test]
fn test_slices() {
    let text = Text::new("test");

    assert_eq!(&text.slice(1, 3).to_string(), "es");
    assert_eq!(text.slice(1, 3).get_chars_count(), 2);
}

#[test]
fn test_concatentate() {
    let foo = Text::new("foo");
    let space = Text::new(" ");
    let bar = Text::new("bar");

    let foo_bar = Text::concatentate([foo, space, bar].to_vec());

    assert_eq!(&foo_bar.to_string(), "foo bar");

    assert_eq!(&foo_bar.slice(2, 5).to_string(), "o b");
    assert_eq!(&foo_bar.slice(1, 2).to_string(), "o");
    assert_eq!(&foo_bar.slice(0, 3).to_string(), "foo");
}

#[test]
fn test_repeat() {
    assert_eq!(&Text::repeat(&Text::new("a "), 4).to_string(), "a a a a ");
}

#[test]
fn test_char_iterator() {
    let foo = Text::new("foo");
    let space = Text::new(" ");
    let bar = Text::new("bar");

    let foo_bar = Text::concatentate([foo, space, bar].to_vec());

    let mut chars = foo_bar.iterate_chars();

    assert_eq!(chars.next().unwrap(), 'f');
    assert_eq!(chars.next().unwrap(), 'o');
    assert_eq!(chars.next().unwrap(), 'o');
    assert_eq!(chars.next().unwrap(), ' ');
    assert_eq!(chars.next().unwrap(), 'b');
    assert_eq!(chars.next().unwrap(), 'a');
    assert_eq!(chars.next().unwrap(), 'r');

    assert!(chars.next().is_none());
}

#[test]
fn test_get_char_at() {
    let foo = Text::new("foo");
    let space = Text::new(" ");
    let bar = Text::new("bar");

    let foo_bar = Text::concatentate([foo, space, bar].to_vec());

    assert_eq!(foo_bar.get_char_at(0).unwrap(), 'f');
    assert_eq!(foo_bar.get_char_at(3).unwrap(), ' ');
    assert_eq!(foo_bar.get_char_at(4).unwrap(), 'b');
    assert_eq!(foo_bar.get_char_at(5).unwrap(), 'a');

    assert!(foo_bar.get_char_at(10).is_none());
}

#[test]
fn text_test_equal() {
    let foo = Text::new("foo");
    let space = Text::new(" ");
    let bar = Text::new("bar");

    let foo_bar = Text::concatentate([foo.clone(), space.clone(), bar.clone()].to_vec());
    let foo_bar_2 = Text::concatentate([foo, space, bar].to_vec());
    let foo_bar_3 = Text::new("foo bar");
    let foo_bar_4 = Text::new("foo bar");

    assert_eq!(foo_bar, foo_bar_2);
    assert_eq!(foo_bar, foo_bar_3);
    assert_eq!(foo_bar_3, foo_bar_4);
    assert_eq!(foo_bar_3, foo_bar_2);
}

#[test]
fn test_hash() {
    let foo = Text::new("foo");
    let space = Text::new(" ");
    let bar = Text::new("bar");

    let foo_bar = Text::concatentate([foo, space, bar].to_vec());
    let foo_bar_2 = Text::new("foo bar");

    let mut hash_set = HashSet::new();

    hash_set.insert(foo_bar);

    assert!(hash_set.get(&foo_bar_2).is_some());
}

#[test]
fn test_ordering() {
    assert!(Text::new("a") < Text::new("b"));
    assert!(Text::new("a") < Text::new("ab"));
    assert!(Text::new("a") <= Text::new("a"));
    assert!(Text::new("a") <= Text::new("ab"));
    assert!(Text::new("b") > Text::new("a"));
    assert!(Text::new("ab") > Text::new("a"));
    assert!(Text::new("a") >= Text::new("a"));
    assert!(Text::new("ab") >= Text::new("a"));
}

#[test]
fn test_from_chars() {
    assert_eq!(Text::new("abc"), Text::from_chars(['a', 'b', 'c'].to_vec()));
}

#[test]
fn test_from_utf8() {
    let utf8 = Text::concatentate([Text::new("a"), Text::new("bc")].to_vec()).as_utf8();

    assert_eq!(Text::from_utf8(utf8).unwrap(), Text::new("abc"));
}

#[test]
fn test_shrink() {
    let abc = Text::concatentate([Text::new("a"), Text::new("bc")].to_vec());

    assert_eq!(&abc.to_string(), "abc");
    assert_eq!(abc.get_chars_count(), 3);
}

#[test]
fn text_round_trip() {
    let text = Text::new("héllo wörld ✓");
    assert_eq!(&text.to_string(), "héllo wörld ✓");
    assert_eq!(text.get_utf8_length(), "héllo wörld ✓".len());
    assert_eq!(text.get_chars_count(), 13);
    assert_eq!(text.as_chars(), "héllo wörld ✓".chars().collect::<Vec<char>>());
    assert_eq!(text.as_utf8(), "héllo wörld ✓".as_bytes().to_vec());
}

#[test]
fn text_slice_counts_utf8_bytes() {
    let text = Text::new("aé✓b");
    assert_eq!(text.get_utf8_length(), 7);
    assert_eq!(&text.slice(1, 3).to_string(), "é");
    assert_eq!(&text.slice(3, 6).to_string(), "✓");
    assert_eq!(&text.slice(0, 7).to_string(), "aé✓b");
    assert_eq!(&text.slice(2, 2).to_string(), "");
}

#[test]
fn text_empty_and_invalid_utf8() {
    let empty = Text::new("");
    assert!(empty.is_empty());
    assert_eq!(empty.get_utf8_length(), 0);
    assert!(!Text::new("x").is_empty());
    assert!(Text::from_utf8(vec![0xff, 0xfe]).is_err());
    assert_eq!(Text::repeat(&Text::new("ab"), 0).get_chars_count(), 0);
}
