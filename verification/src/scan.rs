//! The scan: how a run of graphemes divides into tokens, which units each
//! token yields, and which tokens are malformed control sequences.

use vstd::prelude::*;
use crate::csi::{csi_complete, csi_end, csi_of, lemma_skip_bounds};
use crate::grapheme::{is_bracket, is_escape};
use crate::term_char::{classify, TermCharView};

verus! {

/// Whether the token at `pos` opens with the introducer: an escape with a
/// bracket right behind it.
pub open spec fn at_introducer(gs: Seq<Seq<char>>, pos: int) -> bool {
    &&& is_escape(gs[pos])
    &&& pos + 1 < gs.len()
    &&& is_bracket(gs[pos + 1])
}

/// One past the last grapheme of the token that starts at `pos`. A plain
/// grapheme is a token of its own. An introducer goes with the body behind
/// it. Any other escape goes with the grapheme behind it, if there is one.
pub open spec fn token_end(gs: Seq<Seq<char>>, pos: int) -> int {
    if !is_escape(gs[pos]) {
        pos + 1
    } else if at_introducer(gs, pos) {
        csi_end(gs, pos + 2)
    } else if pos + 1 < gs.len() {
        pos + 2
    } else {
        pos + 1
    }
}

/// Whether the token at `pos` is an introducer with a body that is not well
/// formed.
pub open spec fn token_malformed(gs: Seq<Seq<char>>, pos: int) -> bool {
    at_introducer(gs, pos) && !csi_complete(gs, pos + 2)
}

/// Each grapheme of a run as a unit by itself.
pub open spec fn classify_all(gs: Seq<Seq<char>>) -> Seq<TermCharView> {
    Seq::new(gs.len(), |i: int| classify(gs[i]))
}

/// The units that the token at `pos` yields. A plain grapheme yields itself,
/// classified. A well-formed control sequence yields one unit. A malformed
/// one yields each of its graphemes, the introducer's two first, classified
/// one by one. An escape without a bracket yields nothing, and neither does
/// the grapheme that went with it.
pub open spec fn token_units(gs: Seq<Seq<char>>, pos: int) -> Seq<TermCharView> {
    if !is_escape(gs[pos]) {
        seq![classify(gs[pos])]
    } else if at_introducer(gs, pos) {
        let raw = gs.subrange(pos, token_end(gs, pos));
        if csi_complete(gs, pos + 2) {
            seq![TermCharView::CSI(csi_of(raw))]
        } else {
            classify_all(raw)
        }
    } else {
        seq![]
    }
}

/// A token is never empty and never leaves the run.
pub proof fn lemma_token_end_bounds(gs: Seq<Seq<char>>, pos: int)
    requires
        0 <= pos < gs.len(),
    ensures
        pos < token_end(gs, pos) <= gs.len(),
{
    if at_introducer(gs, pos) {
        lemma_skip_bounds(gs, pos + 2);
    }
}

/// The units of the tokens from `pos` to the end of the run, in order.
pub open spec fn units_from(gs: Seq<Seq<char>>, pos: int) -> Seq<TermCharView>
    decreases gs.len() - pos,
{
    if 0 <= pos < gs.len() {
        proof {
            lemma_token_end_bounds(gs, pos);
        }
        token_units(gs, pos) + units_from(gs, token_end(gs, pos))
    } else {
        seq![]
    }
}

/// Whether some token from `pos` to the end of the run is malformed.
pub open spec fn malformed_from(gs: Seq<Seq<char>>, pos: int) -> bool
    decreases gs.len() - pos,
{
    if 0 <= pos < gs.len() {
        proof {
            lemma_token_end_bounds(gs, pos);
        }
        token_malformed(gs, pos) || malformed_from(gs, token_end(gs, pos))
    } else {
        false
    }
}

/// The units of a whole run of graphemes.
pub open spec fn units(gs: Seq<Seq<char>>) -> Seq<TermCharView> {
    units_from(gs, 0)
}

/// Whether a run of graphemes holds a malformed control sequence.
pub open spec fn has_malformed_escape(gs: Seq<Seq<char>>) -> bool {
    malformed_from(gs, 0)
}

} // verus!
