use usb_gadget_supervisor::bytes::{be_u64, le_u16, le_u32, length_word, push_be64, push_le32};
use usb_gadget_supervisor::format::{decimal, hex_byte, hex_word};
use usb_gadget_supervisor::paths::{is_absolute, is_strictly_under, same_path, split_names};
use usb_gadget_supervisor::sets::{insert_word, ByteSet};
use usb_gadget_supervisor::text::{
    from_utf16, has_char, is_white_space, split_pieces, starts_with, utf16_words, Separator,
};

#[test]
fn words_are_read_where_they_fit() {
    assert_eq!(le_u16(&[1, 2, 3], 1), Some(0x0302));
    assert_eq!(le_u16(&[1, 2, 3], 2), None);
    assert_eq!(le_u32(&[1, 2, 3, 4], 0), Some(0x04030201));
    assert_eq!(le_u32(&[1, 2, 3, 4], 1), None);
    assert_eq!(le_u32(&[], usize::MAX), None);
    let mut bytes = Vec::new();
    push_le32(&mut bytes, 0x01020304);
    push_be64(&mut bytes, 0x0102030405060708);
    assert_eq!(bytes, [4, 3, 2, 1, 1, 2, 3, 4, 5, 6, 7, 8]);
    assert_eq!(be_u64(&bytes, 4), 0x0102030405060708);
    assert_eq!(length_word(10, 14), 24);
    assert_eq!(length_word(u32::MAX as usize, 2), 1);
}

#[test]
fn utf16_reads_back() {
    let text = "a\u{e4}\u{1f600}";
    let words = utf16_words(text);
    assert_eq!(words, text.encode_utf16().collect::<Vec<_>>());
    assert_eq!(from_utf16(&words).as_deref(), Some(text));
    assert_eq!(from_utf16(&[0xd800]), None);
}

#[test]
fn numbers_are_written() {
    assert_eq!(decimal(0), "0");
    assert_eq!(decimal(u64::MAX), "18446744073709551615");
    assert_eq!(hex_byte(0xa0), "0xa0");
    assert_eq!(hex_word(0x0bcd), "0x0bcd");
}

#[test]
fn paths_are_split_into_names() {
    let names = |path: &str| -> Vec<String> {
        split_names(path)
            .iter()
            .map(|name| name.iter().collect())
            .collect()
    };
    assert_eq!(names("//a/./b//c/"), ["a", "b", "c"]);
    assert!(names("/").is_empty());
    assert!(is_absolute("/a/..b"));
    assert!(!is_absolute("/a/../b"));
    assert!(!is_absolute("a"));
    assert!(!is_absolute(""));
    assert!(is_strictly_under("/var/lib/x", "/var/lib"));
    assert!(!is_strictly_under("/var/lib/", "/var/lib"));
    assert!(!is_strictly_under("/var/library", "/var/lib"));
    assert!(same_path("/dev//x", "/dev/x/"));
    assert!(!same_path("/dev/x", "/dev/y"));
}

#[test]
fn texts_are_searched_and_split() {
    assert!(has_char("abc", 'c'));
    assert!(!has_char("abc", 'd'));
    assert!(starts_with("https://x", "https://"));
    assert!(!starts_with("http", "https"));
    let chars: Vec<char> = " a\u{3000}bc \n".chars().collect();
    let pieces = split_pieces(&chars, Separator::WhiteSpace);
    assert_eq!(pieces, [vec!['a'], vec!['b', 'c']]);
    for c in '\0'..='\u{ffff}' {
        assert_eq!(is_white_space(c), c.is_whitespace());
    }
}

#[test]
fn sets_are_ordered() {
    let mut set = ByteSet::new();
    assert!(set.insert(9));
    assert!(set.insert(3));
    assert!(!set.insert(9));
    assert!(set.contains(3) && !set.contains(4));
    assert_eq!(set.to_vec(), [3, 9]);
    let mut other = ByteSet::new();
    other.insert(3);
    assert!(!set.same(&other));
    other.insert(9);
    assert!(set.same(&other));
    let mut words = Vec::new();
    for word in [5, 1, 5, 3] {
        insert_word(&mut words, word);
    }
    assert_eq!(words, [1, 3, 5]);
}
