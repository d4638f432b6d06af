//! Terminal strings: a text parsed into units, its visible width, and its
//! truncation and padding to a width.

use vstd::prelude::*;
use crate::csi::{try_take_csi, Csi, Either};
use crate::grapheme::{single_byte_of, texts};
use crate::scan::{
    classify_all, has_malformed_escape, lemma_token_end_bounds, malformed_from, token_end,
    token_units, units, units_from,
};
use crate::segment::{extended_grapheme_clusters, graphemes_of};
use crate::term_char::{classify, consume_grapheme_to, units_of, TermChar, TermCharView};
use crate::width::{cut, cut_from, padded_text, render, truncated_text, visible_count};

verus! {

/// A text parsed into units, with the number of its visible units.
#[derive(PartialEq, Eq, Debug)]
pub struct TermString<'a> {
    characters: Vec<TermChar<'a>>,
    visible_chars_count: usize,
}

impl<'a> View for TermString<'a> {
    type V = Seq<TermCharView>;

    closed spec fn view(&self) -> Seq<TermCharView> {
        units_of(self.characters@)
    }
}

impl<'a> Clone for TermString<'a> {
    fn clone(&self) -> (copy: Self)
        ensures
            copy@ == self@,
    {
        proof {
            use_type_invariant(self);
        }
        let mut characters: Vec<TermChar<'a>> = Vec::new();
        let mut i: usize = 0;
        while i < self.characters.len()
            invariant
                i <= self.characters@.len(),
                units_of(characters@) == units_of(self.characters@).take(i as int),
            decreases self.characters@.len() - i,
        {
            let ghost before = units_of(characters@);
            let unit = self.characters[i].clone();
            characters.push(unit);
            i += 1;
            assert(units_of(characters@) =~= before.push(unit@));
            assert(units_of(self.characters@).take(i as int) =~= before.push(unit@));
        }
        assert(units_of(characters@) =~= units_of(self.characters@));
        TermString { characters, visible_chars_count: self.visible_chars_count }
    }
}

impl<'a> TermString<'a> {
    #[verifier::type_invariant]
    spec fn counted(&self) -> bool {
        self.visible_chars_count == visible_count(units_of(self.characters@))
    }

    /// Parses `s`, grapheme cluster by grapheme cluster. A strict parse
    /// gives up on the first malformed control sequence; a lenient one
    /// keeps its graphemes as plain units.
    pub fn new(s: &'a str, strict: bool) -> (parsed: Option<TermString<'a>>)
        ensures
            !strict ==> parsed is Some,
            parsed is None <==> strict && has_malformed_escape(extended_grapheme_clusters(s@)),
            parsed matches Some(t) ==> t@ == units(extended_grapheme_clusters(s@)),
            extended_grapheme_clusters(s@).flatten() == s@,
    {
        let graphemes = graphemes_of(s);
        TermString::from_graphemes(graphemes.as_slice(), strict)
    }

    /// Parses a text that is already divided into graphemes.
    pub fn from_graphemes(graphemes: &[&'a str], strict: bool) -> (parsed: Option<TermString<'a>>)
        ensures
            !strict ==> parsed is Some,
            parsed is None <==> strict && has_malformed_escape(texts(graphemes@)),
            parsed matches Some(t) ==> t@ == units(texts(graphemes@)),
    {
        let ghost gs = texts(graphemes@);
        let mut characters: Vec<TermChar<'a>> = Vec::new();
        let mut pos: usize = 0;
        assert(units_of(characters@) + units_from(gs, 0) =~= units_from(gs, 0));
        while pos < graphemes.len()
            invariant
                gs == texts(graphemes@),
                pos <= graphemes@.len(),
                units_of(characters@) + units_from(gs, pos as int) == units(gs),
                strict ==> has_malformed_escape(gs) == malformed_from(gs, pos as int),
            decreases graphemes@.len() - pos,
        {
            let ghost start = pos as int;
            let ghost before = units_of(characters@);
            proof {
                lemma_token_end_bounds(gs, start);
            }
            let g = graphemes[pos];
            pos += 1;
            match single_byte_of(g) {
                Some(0x1b) => {
                    if pos < graphemes.len() {
                        let after = graphemes[pos];
                        pos += 1;
                        match single_byte_of(after) {
                            Some(0x5b) => {
                                match try_take_csi(graphemes, &mut pos) {
                                    Either::Right(csi) => characters.push(TermChar::CSI(csi)),
                                    Either::Left(failed) => {
                                        if strict {
                                            return None;
                                        }
                                        let mut i: usize = 0;
                                        while i < failed.len()
                                            invariant
                                                i <= failed@.len(),
                                                units_of(characters@) == before + classify_all(
                                                    texts(failed@).take(i as int),
                                                ),
                                            decreases failed@.len() - i,
                                        {
                                            consume_grapheme_to(failed[i], &mut characters);
                                            i += 1;
                                            assert(classify_all(texts(failed@).take(i as int))
                                                =~= classify_all(
                                                texts(failed@).take(i - 1),
                                            ).push(classify(failed@[i - 1]@)));
                                        }
                                        assert(texts(failed@).take(i as int) =~= texts(failed@));
                                    },
                                }
                            },
                            _ => {},
                        }
                    }
                },
                _ => consume_grapheme_to(g, &mut characters),
            }
            assert(pos == token_end(gs, start));
            assert(units_of(characters@) =~= before + token_units(gs, start));
            assert(units_of(characters@) + units_from(gs, pos as int) =~= before + units_from(
                gs,
                start,
            ));
        }
        let mut visible_chars_count: usize = 0;
        let mut i: usize = 0;
        while i < characters.len()
            invariant
                i <= characters@.len(),
                visible_chars_count <= i,
                visible_chars_count == visible_count(units_of(characters@).take(i as int)),
            decreases characters@.len() - i,
        {
            if let TermChar::Visible(_) = &characters[i] {
                visible_chars_count += 1;
            }
            i += 1;
            assert(units_of(characters@).take(i as int).drop_last() =~= units_of(
                characters@,
            ).take(i - 1));
        }
        assert(units_of(characters@).take(i as int) =~= units_of(characters@));
        Some(TermString { characters, visible_chars_count })
    }

    /// Pads on the left with `padchar` up to `size` visible units, and
    /// truncates to `size`. Of the two at most one does anything.
    pub fn pad_left_and_truncate(&self, size: usize, padchar: char) -> (text: String)
        ensures
            text@ == padded_text(self@, size as nat, padchar),
    {
        proof {
            use_type_invariant(self);
        }
        let mut ret = String::new();
        let chars_to_pad = if self.visible_chars_count >= size {
            0
        } else {
            size - self.visible_chars_count
        };
        let mut padded: usize = 0;
        while padded < chars_to_pad
            invariant
                padded <= chars_to_pad,
                ret@ == Seq::new(padded as nat, |i: int| padchar),
            decreases chars_to_pad - padded,
        {
            push_char(&mut ret, padchar);
            padded += 1;
            assert(ret@ =~= Seq::new(padded as nat, |i: int| padchar));
        }
        let rest = self.truncated(size);
        ret.append(rest.as_str());
        ret
    }

    /// The text of the leading units up to and including the visible unit
    /// that is number `size`: the visible units and the style sequences
    /// among them. All of them when there are fewer than `size` visible
    /// units, or when `size` is zero.
    pub fn truncated(&self, size: usize) -> (text: String)
        ensures
            text@ == truncated_text(self@, size as nat),
    {
        let ghost units = units_of(self.characters@);
        let mut ret = String::new();
        let mut count: usize = 0;
        let mut i: usize = 0;
        assert(units.take(0) =~= Seq::empty());
        while i < self.characters.len()
            invariant_except_break
                cut(units, size as nat) == cut_from(units, i as int, size - count),
            invariant
                units == units_of(self.characters@),
                count <= i <= self.characters@.len(),
                ret@ == render(units.take(i as int)),
            ensures
                ret@ == render(units.take(cut(units, size as nat))),
            decreases self.characters@.len() - i,
        {
            let unit = &self.characters[i];
            i += 1;
            assert(units.take(i as int).drop_last() =~= units.take(i - 1));
            match unit {
                TermChar::Visible(c) => {
                    ret.append(c);
                    count += 1;
                    // Style sequences behind the last visible unit are
                    // kept only when the walk goes on for another reason.
                    if count == size {
                        break ;
                    }
                },
                TermChar::CSI(Csi::SGR(seq)) => append_all(&mut ret, seq),
                _ => {},
            }
        }
        ret
    }

    /// The units, in order.
    pub fn characters(&self) -> (chars: &Vec<TermChar<'a>>)
        ensures
            units_of(chars@) == self@,
    {
        &self.characters
    }

    /// The visible width: the number of visible units.
    pub fn visible_chars_count(self) -> (count: usize)
        ensures
            count == visible_count(self@),
    {
        proof {
            use_type_invariant(&self);
        }
        self.visible_chars_count
    }
}

/// Appends each of `tokens` to `text`, in order.
fn append_all(text: &mut String, tokens: &Vec<&str>)
    ensures
        final(text)@ == old(text)@ + texts(tokens@).flatten(),
{
    let mut i: usize = 0;
    assert(texts(tokens@).take(0) =~= Seq::empty());
    while i < tokens.len()
        invariant
            i <= tokens@.len(),
            text@ == old(text)@ + texts(tokens@).take(i as int).flatten(),
        decreases tokens@.len() - i,
    {
        text.append(tokens[i]);
        i += 1;
        proof {
            let taken = texts(tokens@).take(i - 1);
            assert(texts(tokens@).take(i as int) =~= taken.push(tokens@[i - 1]@));
            taken.lemma_flatten_push(tokens@[i - 1]@);
            assert(text@ =~= old(text)@ + texts(tokens@).take(i as int).flatten());
        }
    }
    assert(texts(tokens@).take(i as int) =~= texts(tokens@));
}

/// Appends `c` to `text`.
///
/// Trusted: this calls `String::push` of std, which appends the given
/// character to the end of the string.
#[verifier::external_body]
fn push_char(text: &mut String, c: char)
    ensures
        final(text)@ == old(text)@.push(c),
{
    text.push(c);
}

} // verus!
