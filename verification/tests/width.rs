use term_string::{Csi, TermChar, TermString};

const INPUT: &str = "\x1f\x1b[93msnake\x1b[0m";

#[test]
fn truncate_lt_size() {
    let string = TermString::new(INPUT, false).unwrap();
    assert_eq!(string.truncated(4), "\x1b[93msnak".to_string());
}

#[test]
fn truncating_gt_size() {
    let string = TermString::new(INPUT, false).unwrap();
    assert_eq!(string.truncated(100).as_str(), "\x1b[93msnake\x1b[0m");
}

#[test]
fn colored_snake_is_five_wide() {
    assert_eq!(TermString::new(INPUT, false).unwrap().visible_chars_count(), 5);
    assert_eq!(TermString::new(INPUT, true).unwrap().visible_chars_count(), 5);
}

#[test]
fn truncating_to_the_width_drops_the_trailing_style() {
    let string = TermString::new(INPUT, false).unwrap();
    assert_eq!(string.truncated(5), "\x1b[93msnake");
    assert_eq!(string.truncated(6), "\x1b[93msnake\x1b[0m");
}

#[test]
fn truncating_to_one() {
    let string = TermString::new(INPUT, false).unwrap();
    assert_eq!(string.truncated(1), "\x1b[93ms");
}

#[test]
fn truncating_to_zero_keeps_everything() {
    let string = TermString::new(INPUT, false).unwrap();
    assert_eq!(string.truncated(0), "\x1b[93msnake\x1b[0m");
    assert_eq!(TermString::new("abc", true).unwrap().truncated(0), "abc");
    assert_eq!(TermString::new("", true).unwrap().truncated(0), "");
}

#[test]
fn truncating_to_the_largest_width() {
    let string = TermString::new(INPUT, false).unwrap();
    assert_eq!(string.truncated(usize::MAX), "\x1b[93msnake\x1b[0m");
}

#[test]
fn truncating_plain_text_gives_its_first_graphemes() {
    let string = TermString::new("hello", true).unwrap();
    assert_eq!(string.truncated(1), "h");
    assert_eq!(string.truncated(3), "hel");
    assert_eq!(string.truncated(5), "hello");
    assert_eq!(string.truncated(6), "hello");
    let accents = TermString::new("a\u{310}e\u{301}o\u{308}\u{332}", true).unwrap();
    assert_eq!(accents.clone().visible_chars_count(), 3);
    assert_eq!(accents.truncated(2), "a\u{310}e\u{301}");
}

#[test]
fn truncating_skips_what_does_not_show() {
    let string = TermString::new("\x07a\x1b[2Jb\x1b[Hc\x00", true).unwrap();
    assert_eq!(string.truncated(2), "ab");
    assert_eq!(string.truncated(3), "abc");
    assert_eq!(string.truncated(4), "abc");
}

#[test]
fn truncating_keeps_styles_between_visible_units() {
    let string = TermString::new("\x1b[1ma\x1b[0m\x1b[4mb\x1b[0mc", true).unwrap();
    assert_eq!(string.truncated(1), "\x1b[1ma");
    assert_eq!(string.truncated(2), "\x1b[1ma\x1b[0m\x1b[4mb");
    assert_eq!(string.truncated(3), "\x1b[1ma\x1b[0m\x1b[4mb\x1b[0mc");
}

#[test]
fn truncating_styles_alone() {
    let string = TermString::new("\x1b[1m\x1b[0m", true).unwrap();
    assert_eq!(string.clone().visible_chars_count(), 0);
    assert_eq!(string.truncated(0), "\x1b[1m\x1b[0m");
    assert_eq!(string.truncated(3), "\x1b[1m\x1b[0m");
}

#[test]
fn truncating_a_malformed_sequence_kept_as_text() {
    let string = TermString::new("\x1b[12", false).unwrap();
    assert_eq!(string.clone().visible_chars_count(), 3);
    assert_eq!(string.truncated(2), "[1");
    assert_eq!(string.truncated(9), "[12");
}

#[test]
fn round_trip_at_the_visible_width() {
    // Visible graphemes and style sequences alone: the text comes back, but
    // for the style behind the last visible unit.
    let s = "\x1b[1;31mre\u{301}d\x1b[0m and \x1b[4mlined\x1b[0m";
    let string = TermString::new(s, true).unwrap();
    let width = string.clone().visible_chars_count();
    assert_eq!(width, 13);
    assert_eq!(string.truncated(width), "\x1b[1;31mre\u{301}d\x1b[0m and \x1b[4mlined");
    assert_eq!(string.truncated(width + 1), s);
    let plain = TermString::new("no styles here", true).unwrap();
    assert_eq!(plain.truncated(14), "no styles here");
}

#[test]
fn padding_fills_up_to_the_width() {
    let string = TermString::new(INPUT, false).unwrap();
    assert_eq!(string.pad_left_and_truncate(8, ' '), "   \x1b[93msnake\x1b[0m");
    assert_eq!(string.pad_left_and_truncate(6, '.'), ".\x1b[93msnake\x1b[0m");
    let plain = TermString::new("ab", true).unwrap();
    assert_eq!(plain.pad_left_and_truncate(5, '*'), "***ab");
    assert_eq!(plain.pad_left_and_truncate(3, '\u{2500}'), "\u{2500}ab");
}

#[test]
fn padded_text_is_as_wide_as_asked_for() {
    let plain = TermString::new("ab", true).unwrap();
    for width in 2..10 {
        let padded = plain.pad_left_and_truncate(width, '-');
        assert_eq!(TermString::new(&padded, true).unwrap().visible_chars_count(), width);
    }
}

#[test]
fn padding_an_empty_text() {
    let empty = TermString::new("", true).unwrap();
    assert_eq!(empty.pad_left_and_truncate(0, 'x'), "");
    assert_eq!(empty.pad_left_and_truncate(3, 'x'), "xxx");
}

#[test]
fn padding_at_the_width_only_truncates() {
    let string = TermString::new(INPUT, false).unwrap();
    assert_eq!(string.pad_left_and_truncate(5, ' '), "\x1b[93msnake");
    assert_eq!(string.pad_left_and_truncate(5, ' '), string.truncated(5));
}

#[test]
fn padding_a_wider_text_only_truncates() {
    let string = TermString::new(INPUT, false).unwrap();
    for width in 0..6 {
        assert_eq!(string.pad_left_and_truncate(width, '#'), string.truncated(width));
    }
    assert_eq!(string.pad_left_and_truncate(2, '#'), "\x1b[93msn");
    assert_eq!(string.pad_left_and_truncate(0, '#'), "\x1b[93msnake\x1b[0m");
}

#[test]
fn rendering_parses_into_the_units_that_render() {
    let string = TermString::new("\x07a\x1b[2J\x1b[1mb\x1b[0m\x1b", true).unwrap();
    let rendered = string.truncated(usize::MAX);
    assert_eq!(rendered, "a\x1b[1mb\x1b[0m");
    let again = TermString::new(&rendered, true).unwrap();
    assert_eq!(
        again.characters(),
        &vec![
            TermChar::Visible("a"),
            TermChar::CSI(Csi::SGR(vec!["\x1b", "[", "1", "m"])),
            TermChar::Visible("b"),
            TermChar::CSI(Csi::SGR(vec!["\x1b", "[", "0", "m"])),
        ]
    );
    assert_eq!(again.visible_chars_count(), string.visible_chars_count());
}

#[test]
fn padding_with_a_character_that_does_not_show_adds_no_width() {
    let plain = TermString::new("ab", true).unwrap();
    let padded = plain.pad_left_and_truncate(4, '\x07');
    assert_eq!(padded, "\x07\x07ab");
    assert_eq!(TermString::new(&padded, true).unwrap().visible_chars_count(), 2);
}
