//! Single graphemes: the byte a one-byte grapheme consists of, and the byte
//! classes that the control sequence grammar and the visibility rule rest on.

use vstd::prelude::*;
use vstd::utf8::*;

verus! {

/// The byte of a grapheme whose UTF-8 encoding is exactly one byte long:
/// a single character up to U+007F. Every other grapheme has none.
pub open spec fn single_byte(g: Seq<char>) -> Option<u8> {
    if g.len() == 1 && g[0] <= '\u{7f}' {
        Some(g[0] as u8)
    } else {
        None
    }
}

/// The escape character, U+001B, standing alone.
pub open spec fn is_escape(g: Seq<char>) -> bool {
    single_byte(g) == Some(0x1bu8)
}

/// The opening square bracket, `[`, standing alone.
pub open spec fn is_bracket(g: Seq<char>) -> bool {
    single_byte(g) == Some(0x5bu8)
}

/// The letter `m`, standing alone: the final byte of a style sequence.
pub open spec fn is_style_final(g: Seq<char>) -> bool {
    single_byte(g) == Some(0x6du8)
}

/// A parameter byte of a control sequence: 0x30 to 0x3f.
pub open spec fn is_parameter(g: Seq<char>) -> bool {
    single_byte(g) matches Some(b) && 0x30 <= b <= 0x3f
}

/// An intermediate byte of a control sequence: 0x20 to 0x2f.
pub open spec fn is_intermediate(g: Seq<char>) -> bool {
    single_byte(g) matches Some(b) && 0x20 <= b <= 0x2f
}

/// A final byte of a control sequence: 0x40 to 0x7e.
pub open spec fn is_final(g: Seq<char>) -> bool {
    single_byte(g) matches Some(b) && 0x40 <= b <= 0x7e
}

/// Whether a grapheme takes up a column. A grapheme of more than one byte
/// does; a single byte does when it is a tab, a line feed, a carriage return
/// or printable ASCII (0x20 to 0x7e).
pub open spec fn is_visible(g: Seq<char>) -> bool {
    match single_byte(g) {
        Some(b) => b == 0x09 || b == 0x0a || b == 0x0d || 0x20 <= b <= 0x7e,
        None => true,
    }
}

/// The texts of a run of graphemes.
pub open spec fn texts(graphemes: Seq<&str>) -> Seq<Seq<char>> {
    Seq::new(graphemes.len(), |i: int| graphemes[i]@)
}

/// A character's code lies in the range of `char`, and a code up to 0x7f
/// survives the narrowing to a byte.
proof fn lemma_char_code(c: char)
    ensures
        0 <= c as int <= 0x10ffff,
        (c as u32) as int == c as int,
        c <= '\u{7f}' ==> (c as u8) as int == c as int,
{
}

/// Each character takes at least one byte.
proof fn lemma_encoding_covers_chars(g: Seq<char>)
    ensures
        encode_utf8(g).len() >= g.len(),
    decreases g.len(),
{
    if g.len() > 0 {
        lemma_encoding_covers_chars(g.drop_first());
    }
}

/// A text encodes to one byte exactly when it is one character up to U+007F,
/// and that byte is then the character's code.
pub proof fn lemma_single_byte_encoding(g: Seq<char>)
    ensures
        encode_utf8(g).len() == 1 <==> single_byte(g) is Some,
        single_byte(g) matches Some(b) ==> encode_utf8(g)[0] == b,
{
    lemma_encoding_covers_chars(g);
    if g.len() == 1 {
        lemma_char_code(g[0]);
        let c: u32 = g[0] as u32;
        char_is_scalar(g[0]);
        assert(encode_utf8(g.drop_first()) =~= Seq::<u8>::empty());
        assert(encode_utf8(g) =~= encode_scalar(c));
        if c < 0x80 {
            assert(c as u8 == leading_byte_width_1(c)) by (bit_vector)
                requires
                    c < 0x80,
            ;
        }
    }
}

/// Reads the byte of a one-byte grapheme.
pub fn single_byte_of(g: &str) -> (b: Option<u8>)
    ensures
        b == single_byte(g@),
{
    proof {
        lemma_single_byte_encoding(g@);
    }
    if g.len() == 1 {
        Some(g.as_bytes()[0])
    } else {
        None
    }
}

} // verus!
