use process::bytes::{place, same_bytes, starts_with, Place};
use process::text::{decode, join_lines, non_blank_lines};

#[test]
fn blank_lines_are_dropped_and_the_rest_trimmed() {
    let list = non_blank_lines("  a \n\n\t\nb c\r\n");
    assert_eq!(list, ["a", "b c"]);
    assert_eq!(join_lines(&list), "a\nb c");
}

#[test]
fn no_lines_at_all() {
    assert!(non_blank_lines("").is_empty());
    assert!(non_blank_lines("\n \n\r\n").is_empty());
    assert_eq!(join_lines(&Vec::new()), "");
}

#[test]
fn lines_that_were_kept_are_kept_again() {
    for text in ["", "a", " a\n b \n", "\n\nx\u{2003}y\n\u{3000}z", "\u{85}q\n\u{85}"] {
        let once = non_blank_lines(text);
        assert_eq!(non_blank_lines(&join_lines(&once)), once);
    }
}

#[test]
fn every_white_space_is_trimmed_and_nothing_else() {
    for c in '\0'..=char::MAX {
        let n = u32::from(c);
        let white = (0x9..=0xd).contains(&n)
            || (0x2000..=0x200a).contains(&n)
            || [0x20, 0x85, 0xa0, 0x1680, 0x2028, 0x2029, 0x202f, 0x205f, 0x3000].contains(&n);
        if c != '\n' {
            let text = format!("{c}a{c}");
            let expected = if white { "a".to_string() } else { text.clone() };
            assert_eq!(non_blank_lines(&text), [expected]);
        }
    }
}

#[test]
fn bytes_as_text() {
    assert_eq!(decode(b""), "");
    assert_eq!(decode("h\u{e9}llo \u{1f600}".as_bytes()), "h\u{e9}llo \u{1f600}");
    assert_eq!(decode(b"a\xffb"), "a\u{fffd}b");
    assert_eq!(decode(b"\xe2\x82"), "\u{fffd}");
}

#[test]
fn bytes_in_order() {
    assert_eq!(place(b"", b""), Place::Same);
    assert_eq!(place(b"", b"a"), Place::Before);
    assert_eq!(place(b"ab", b"a"), Place::After);
    assert_eq!(place(b"a\xff", b"b"), Place::Before);
    assert!(same_bytes(b"ab", b"ab"));
    assert!(!same_bytes(b"ab", b"ac"));
    assert!(starts_with(b"abc", b"ab"));
    assert!(!starts_with(b"a", b"ab"));
}
