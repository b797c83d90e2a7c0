use helix_base::width::{checked_sum_widths, checked_width, grapheme_width, DisplayWidth};

#[test]
fn display_width_sequences() {
    for (text, width) in [
        ("", 0),
        ("plain text", 10),
        ("a\nb\r\nc\td\0\u{7f}\u{85}", 4),
        ("لا", 2),
        ("א\u{200d}ל", 2),
        ("ꓹꓼ", 2),
        ("🤦🏼‍♂️", 2),
        ("👨‍👩‍👧‍👦", 2),
        ("1️⃣", 2),
        ("🇬🇧", 2),
        ("☀️", 2),
        ("☀︎", 1),
        ("e\u{301}", 1),
        ("コン", 4),
        ("\u{200b}", 0),
        ("\u{301}", 0),
        ("\u{600}a", 2),
        ("\u{17d8}", 3),
    ] {
        assert_eq!(text.width(), width, "{text:?}");
    }
}

#[test]
fn ascii_text_counts_characters_that_are_not_controls() {
    assert_eq!("abc".width(), 3);
    assert_eq!("\t\n\r\0\u{7f}".width(), 0);
    assert_eq!("a b".width(), 3);
    assert_eq!("\x1b[0m".width(), 3);
}

#[test]
fn single_graphemes_have_their_widths() {
    assert_eq!(grapheme_width("a"), 1);
    assert_eq!(grapheme_width(" "), 1);
    assert_eq!(grapheme_width("\n"), 0);
    assert_eq!(grapheme_width("\u{7f}"), 0);
    assert_eq!(grapheme_width("\r\n"), 0);
    assert_eq!(grapheme_width("\u{85}"), 0);
    assert_eq!(grapheme_width("\u{9f}x"), 0);
    assert_eq!(grapheme_width("コ"), 2);
    assert_eq!(grapheme_width("🤦🏼‍♂️"), 2);
    assert_eq!(grapheme_width("1️⃣"), 2);
    assert_eq!(grapheme_width("e\u{301}"), 1);
    assert_eq!(grapheme_width("\u{17d8}"), 3);
    assert_eq!(grapheme_width(""), 0);
}

#[test]
fn non_ascii_text_is_the_sum_of_its_graphemes() {
    // "لا" is one ligature of width 1 for unicode-width, but two graphemes here.
    assert_eq!("لا".width(), grapheme_width("ل") + grapheme_width("ا"));
    assert_eq!("a\u{85}b".width(), 2);
    assert_eq!("é\r\n".width(), 1);
}

#[test]
fn checked_width_agrees_with_width() {
    for text in ["", "plain text", "a\nb", "コン", "1️⃣", "\u{17d8}!"] {
        assert_eq!(checked_width(text), Some(text.width()), "{text:?}");
    }
}

#[test]
fn ascii_widths_add_up() {
    for (a, b) in [("ab\t", "c\n"), ("", "xyz"), ("\0\x1f", "\x7f~")] {
        let joined = format!("{a}{b}");
        assert_eq!(joined.as_str().width(), a.width() + b.width(), "{a:?} {b:?}");
    }
}

#[test]
fn widths_add_up_where_no_grapheme_spans_the_join() {
    assert_eq!("\u{17d8}!".width(), 4);
    assert_eq!("\u{17d8}!".width(), "\u{17d8}".width() + "!".width());
    assert_eq!("\u{644}\u{627}".width(), "\u{644}".width() + "\u{627}".width());
    assert_eq!("コン!".width(), "コン".width() + "!".width());
}

#[test]
fn ascii_text_agrees_with_its_graphemes() {
    // CR LF is one grapheme of width 0, and two control characters.
    assert_eq!("a\r\nb".width(), 2);
    assert_eq!(grapheme_width("a") + grapheme_width("\r\n") + grapheme_width("b"), 2);
    assert_eq!("\r\r\n".width(), grapheme_width("\r") + grapheme_width("\r\n"));
}

#[test]
fn sums_of_grapheme_widths_are_checked() {
    assert_eq!(checked_sum_widths(&vec!["a", "\r\n", "コ", "\u{17d8}"]), Some(6));
    assert_eq!(checked_sum_widths(&vec![]), Some(0));
}
