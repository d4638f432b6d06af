//! The units of a terminal string: control sequences, and single graphemes
//! that a terminal shows or does not show.

use vstd::prelude::*;
use crate::csi::{Csi, CsiView};
use crate::grapheme::{is_visible, single_byte_of};

verus! {

/// What a unit is, as plain text.
pub enum TermCharView {
    CSI(CsiView),
    Invisible(Seq<char>),
    Visible(Seq<char>),
}

/// The unit that a single grapheme outside a control sequence forms.
pub open spec fn classify(g: Seq<char>) -> TermCharView {
    if is_visible(g) {
        TermCharView::Visible(g)
    } else {
        TermCharView::Invisible(g)
    }
}

/// One unit of a terminal string.
#[derive(PartialEq, Eq, Debug)]
pub enum TermChar<'a> {
    /// A control sequence.
    CSI(Csi<'a>),
    /// A control byte, which takes no column.
    Invisible(&'a str),
    /// A grapheme that takes one column.
    Visible(&'a str),
}

impl<'a> View for TermChar<'a> {
    type V = TermCharView;

    open spec fn view(&self) -> TermCharView {
        match self {
            TermChar::CSI(csi) => TermCharView::CSI(csi@),
            TermChar::Invisible(g) => TermCharView::Invisible(g@),
            TermChar::Visible(g) => TermCharView::Visible(g@),
        }
    }
}

impl<'a> Clone for TermChar<'a> {
    fn clone(&self) -> (copy: Self)
        ensures
            copy@ == self@,
    {
        match self {
            TermChar::CSI(csi) => TermChar::CSI(csi.clone()),
            TermChar::Invisible(g) => TermChar::Invisible(*g),
            TermChar::Visible(g) => TermChar::Visible(*g),
        }
    }
}

/// The units of a run, as plain text.
pub open spec fn units_of(chars: Seq<TermChar>) -> Seq<TermCharView> {
    Seq::new(chars.len(), |i: int| chars[i]@)
}

/// Classifies one grapheme and appends it.
pub fn consume_grapheme_to<'a>(c: &'a str, chars: &mut Vec<TermChar<'a>>)
    ensures
        units_of(final(chars)@) == units_of(old(chars)@).push(classify(c@)),
{
    match single_byte_of(c) {
        Some(b) => {
            if b == 0x09 || b == 0x0a || b == 0x0d || (0x20 <= b && b <= 0x7e) {
                chars.push(TermChar::Visible(c))
            } else {
                chars.push(TermChar::Invisible(c))
            }
        },
        None => chars.push(TermChar::Visible(c)),
    }
    assert(units_of(chars@) =~= units_of(old(chars)@).push(classify(c@)));
}

} // verus!
