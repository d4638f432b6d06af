use term_string::{Csi, TermChar, TermString};

const INPUT: &str = "\x1f\x1b[93msnake\x1b[0m";

fn colored_snake() -> Vec<TermChar<'static>> {
    vec![
        TermChar::Invisible("\x1f"),
        TermChar::CSI(Csi::SGR(vec!["\x1b", "[", "9", "3", "m"])),
        TermChar::Visible("s"),
        TermChar::Visible("n"),
        TermChar::Visible("a"),
        TermChar::Visible("k"),
        TermChar::Visible("e"),
        TermChar::CSI(Csi::SGR(vec!["\x1b", "[", "0", "m"])),
    ]
}

fn lenient(s: &str) -> Vec<TermChar<'_>> {
    TermString::new(s, false).unwrap().characters().clone()
}

#[test]
fn test_internal_structure() {
    let string = TermString::new(INPUT, false).unwrap();
    assert_eq!(&colored_snake(), string.characters());
    assert_eq!(string.visible_chars_count(), 5);
}

#[test]
fn strict_parse_of_well_formed_input_agrees_with_lenient() {
    let strict = TermString::new(INPUT, true).unwrap();
    let lenient = TermString::new(INPUT, false).unwrap();
    assert_eq!(strict, lenient);
    assert_eq!(strict.characters(), &colored_snake());
}

#[test]
fn incomplete_sequence_is_refused_when_strict() {
    assert_eq!(TermString::new("\x1b[", true), None);
}

#[test]
fn incomplete_sequence_is_kept_as_text_when_lenient() {
    assert_eq!(lenient("\x1b["), vec![TermChar::Invisible("\x1b"), TermChar::Visible("[")]);
    assert_eq!(TermString::new("\x1b[", false).unwrap().visible_chars_count(), 1);
}

#[test]
fn sequence_that_runs_out_keeps_its_parameters() {
    assert_eq!(TermString::new("\x1b[12", true), None);
    assert_eq!(
        lenient("\x1b[12"),
        vec![
            TermChar::Invisible("\x1b"),
            TermChar::Visible("["),
            TermChar::Visible("1"),
            TermChar::Visible("2"),
        ]
    );
}

#[test]
fn parameter_behind_intermediate_is_malformed() {
    assert_eq!(TermString::new("\x1b[ 1x", true), None);
    assert_eq!(
        lenient("\x1b[ 1x"),
        vec![
            TermChar::Invisible("\x1b"),
            TermChar::Visible("["),
            TermChar::Visible(" "),
            TermChar::Visible("1"),
            TermChar::Visible("x"),
        ]
    );
}

#[test]
fn control_byte_in_body_is_malformed() {
    assert_eq!(TermString::new("\x1b[3\x07m", true), None);
    assert_eq!(
        lenient("\x1b[3\x07m"),
        vec![
            TermChar::Invisible("\x1b"),
            TermChar::Visible("["),
            TermChar::Visible("3"),
            TermChar::Invisible("\x07"),
            TermChar::Visible("m"),
        ]
    );
}

#[test]
fn wide_grapheme_in_body_is_malformed() {
    assert_eq!(TermString::new("\x1b[1\u{e9}m", true), None);
    assert_eq!(
        lenient("\x1b[1\u{e9}m"),
        vec![
            TermChar::Invisible("\x1b"),
            TermChar::Visible("["),
            TermChar::Visible("1"),
            TermChar::Visible("\u{e9}"),
            TermChar::Visible("m"),
        ]
    );
}

#[test]
fn escape_inside_body_is_not_a_new_start() {
    // The second escape ends the first sequence as malformed and is kept as
    // text; the scan goes on behind it.
    assert_eq!(
        lenient("\x1b[3\x1b[0m"),
        vec![
            TermChar::Invisible("\x1b"),
            TermChar::Visible("["),
            TermChar::Visible("3"),
            TermChar::Invisible("\x1b"),
            TermChar::Visible("["),
            TermChar::Visible("0"),
            TermChar::Visible("m"),
        ]
    );
}

#[test]
fn lenient_parse_always_succeeds() {
    for s in ["", "\x1b", "\x1b[", "\x1b[1", "\x1b[ 0", "\x1b[\x00", "a\x1bb", "\x1b[\x1b[", "plain"] {
        assert!(TermString::new(s, false).is_some());
    }
}

#[test]
fn strict_parse_fails_exactly_on_malformed_sequences() {
    for s in ["\x1b[", "\x1b[1", "\x1b[ 0", "\x1b[\x00", "ab\x1b[1;", "\x1b[m\x1b[\u{80}"] {
        assert_eq!(TermString::new(s, true), None);
    }
    for s in ["", "\x1b", "a\x1bb", "\x1b[m", "\x1b[1;31m", "\x1b[2J", "\x1b[ q", "\x1b[?25 h", "plain"] {
        assert!(TermString::new(s, true).is_some());
    }
}

#[test]
fn escape_without_bracket_is_dropped_with_the_next_grapheme() {
    assert_eq!(lenient("a\x1bbc"), vec![TermChar::Visible("a"), TermChar::Visible("c")]);
    assert_eq!(
        TermString::new("a\x1bbc", true).unwrap().characters(),
        &vec![TermChar::Visible("a"), TermChar::Visible("c")]
    );
}

#[test]
fn escape_at_the_end_is_dropped() {
    assert_eq!(lenient("a\x1b"), vec![TermChar::Visible("a")]);
    assert_eq!(lenient("\x1b"), vec![]);
}

#[test]
fn escape_before_escape_drops_both() {
    // The second escape is taken while looking for the bracket, so the
    // bracket behind it is plain text.
    assert_eq!(lenient("\x1b\x1b[m"), vec![TermChar::Visible("["), TermChar::Visible("m")]);
}

#[test]
fn other_sequences_are_told_from_style_sequences() {
    assert_eq!(
        lenient("\x1b[2Jx\x1b[1;31m"),
        vec![
            TermChar::CSI(Csi::Other(vec!["\x1b", "[", "2", "J"])),
            TermChar::Visible("x"),
            TermChar::CSI(Csi::SGR(vec!["\x1b", "[", "1", ";", "3", "1", "m"])),
        ]
    );
}

#[test]
fn sequence_with_intermediate_bytes() {
    assert_eq!(
        lenient("\x1b[0 q"),
        vec![TermChar::CSI(Csi::Other(vec!["\x1b", "[", "0", " ", "q"]))]
    );
    assert_eq!(
        lenient("\x1b[ !m"),
        vec![TermChar::CSI(Csi::SGR(vec!["\x1b", "[", " ", "!", "m"]))]
    );
}

#[test]
fn shortest_sequences() {
    assert_eq!(lenient("\x1b[m"), vec![TermChar::CSI(Csi::SGR(vec!["\x1b", "[", "m"]))]);
    assert_eq!(lenient("\x1b[@"), vec![TermChar::CSI(Csi::Other(vec!["\x1b", "[", "@"]))]);
    assert_eq!(lenient("\x1b[~"), vec![TermChar::CSI(Csi::Other(vec!["\x1b", "[", "~"]))]);
    assert_eq!(TermString::new("\x1b[\x7f", true), None);
}

#[test]
fn control_bytes_are_invisible() {
    assert_eq!(
        lenient("\x00\x08\x0b\x0c\x1f\x7f"),
        vec![
            TermChar::Invisible("\x00"),
            TermChar::Invisible("\x08"),
            TermChar::Invisible("\x0b"),
            TermChar::Invisible("\x0c"),
            TermChar::Invisible("\x1f"),
            TermChar::Invisible("\x7f"),
        ]
    );
    assert_eq!(TermString::new("\x00\x08\x0b\x0c\x1f\x7f", true).unwrap().visible_chars_count(), 0);
}

#[test]
fn tab_and_line_ends_are_visible() {
    assert_eq!(
        lenient("\t\n\r ~"),
        vec![
            TermChar::Visible("\t"),
            TermChar::Visible("\n"),
            TermChar::Visible("\r"),
            TermChar::Visible(" "),
            TermChar::Visible("~"),
        ]
    );
}

#[test]
fn clusters_are_single_units() {
    // A carriage return with its line feed, a letter with its accents and a
    // flag are one grapheme cluster each.
    let s = "\r\na\u{310}e\u{301}\u{1F1F7}\u{1F1F8}";
    assert_eq!(
        lenient(s),
        vec![
            TermChar::Visible("\r\n"),
            TermChar::Visible("a\u{310}"),
            TermChar::Visible("e\u{301}"),
            TermChar::Visible("\u{1F1F7}\u{1F1F8}"),
        ]
    );
    assert_eq!(TermString::new(s, true).unwrap().visible_chars_count(), 4);
}

#[test]
fn bracket_with_a_combining_mark_is_no_introducer() {
    // The mark joins the bracket, so the escape has no bracket behind it and
    // goes, together with that cluster.
    assert_eq!(lenient("\x1b[\u{301}m"), vec![TermChar::Visible("m")]);
}

#[test]
fn width_of_plain_text_is_its_number_of_graphemes() {
    assert_eq!(TermString::new("", true).unwrap().visible_chars_count(), 0);
    assert_eq!(TermString::new("hello", true).unwrap().visible_chars_count(), 5);
    assert_eq!(TermString::new("h\u{e9}llo w\u{f6}rld", true).unwrap().visible_chars_count(), 11);
}

#[test]
fn parsing_graphemes_directly() {
    let graphemes = ["\x1f", "\x1b", "[", "9", "3", "m", "s", "n", "a", "k", "e", "\x1b", "[", "0", "m"];
    let string = TermString::from_graphemes(&graphemes, true).unwrap();
    assert_eq!(string.characters(), &colored_snake());
    assert_eq!(string, TermString::new(INPUT, true).unwrap());
}

#[test]
fn parsing_graphemes_that_no_text_divides_into() {
    // An empty grapheme and one of several letters are visible units.
    let string = TermString::from_graphemes(&["", "abc", "\x1b", "[", "", "m"], false).unwrap();
    assert_eq!(
        string.characters(),
        &vec![
            TermChar::Visible(""),
            TermChar::Visible("abc"),
            TermChar::Invisible("\x1b"),
            TermChar::Visible("["),
            TermChar::Visible(""),
            TermChar::Visible("m"),
        ]
    );
    assert_eq!(TermString::from_graphemes(&["\x1b", "[", "", "m"], true), None);
}

#[test]
fn clone_is_equal() {
    let string = TermString::new(INPUT, false).unwrap();
    let copy = string.clone();
    assert_eq!(copy, string);
    assert_eq!(copy.characters(), &colored_snake());
    assert_eq!(copy.truncated(2), "\x1b[93msn");
    assert_eq!(copy.visible_chars_count(), 5);
}

#[test]
fn swallowed_escape_hides_an_incomplete_sequence() {
    // The second escape goes with the first, so the bracket behind it opens
    // nothing and a strict parse succeeds.
    assert_eq!(
        TermString::new("\x1b\x1b[", true).unwrap().characters(),
        &vec![TermChar::Visible("[")]
    );
}
