//! What holds of parsing, truncation and padding taken together.

use vstd::prelude::*;
use crate::csi::{csi_body, csi_complete, csi_end, csi_of, law_csi_grammar, lemma_skip_bounds};
use crate::grapheme::{is_bracket, is_escape, is_intermediate, is_parameter, is_visible};
use crate::scan::{
    at_introducer, has_malformed_escape, lemma_token_end_bounds, malformed_from, token_end,
    token_malformed, token_units, units, units_from,
};
use crate::term_char::TermCharView;
use crate::width::{
    cut, deficit, is_style, lemma_concat, lemma_cut_from, lemma_shown, lemma_shown_concat,
    lemma_single, lemma_visible_count_bounds, padded_text, render, rendered_graphemes, shown,
    truncated_text, unit_graphemes, unit_text, visible_count,
};

verus! {

/// One visible unit for each grapheme.
pub open spec fn all_visible(gs: Seq<Seq<char>>) -> Seq<TermCharView> {
    Seq::new(gs.len(), |i: int| TermCharView::Visible(gs[i]))
}

/// What every unit of a parsed text is. A visible unit is a grapheme that
/// takes a column, an invisible unit one that takes none. A control
/// sequence is the introducer and a well-formed body, nothing behind it,
/// and it is a style sequence exactly when it ends in `m`.
pub open spec fn unit_well_formed(unit: TermCharView) -> bool {
    match unit {
        TermCharView::Visible(g) => is_visible(g),
        TermCharView::Invisible(g) => !is_visible(g),
        TermCharView::CSI(csi) => {
            let tokens = csi.tokens();
            &&& csi == csi_of(tokens)
            &&& tokens.len() >= 3
            &&& is_escape(tokens[0])
            &&& is_bracket(tokens[1])
            &&& csi_complete(tokens, 2)
            &&& csi_end(tokens, 2) == tokens.len()
        },
    }
}

/// Every unit of a parsed text is well formed, whatever the text.
pub proof fn law_units_well_formed(gs: Seq<Seq<char>>)
    ensures
        forall|k: int| 0 <= k < units(gs).len() ==> unit_well_formed(#[trigger] units(gs)[k]),
{
    lemma_well_formed_from(gs, 0);
}

/// A strict parse fails only where an introducer stands before a body that
/// does not follow the grammar.
pub proof fn law_malformed_has_cause(gs: Seq<Seq<char>>)
    requires
        has_malformed_escape(gs),
    ensures
        exists|i: int| 0 <= i < gs.len() && #[trigger] token_malformed(gs, i),
{
    lemma_malformed_from(gs, 0);
}

/// A strict parse fails where the first escape of a text is an introducer
/// before a body that does not follow the grammar.
pub proof fn law_first_escape_decides(gs: Seq<Seq<char>>, first: int)
    requires
        0 <= first < gs.len(),
        forall|k: int| 0 <= k < first ==> !is_escape(#[trigger] gs[k]),
        token_malformed(gs, first),
    ensures
        has_malformed_escape(gs),
{
    lemma_no_escape_prefix(gs, 0, first);
}

/// Text without control bytes parses, strictly too, into one visible unit
/// for each grapheme. Its width is the number of its graphemes, and
/// truncating it to a width from one up to that number gives the graphemes
/// up to that width. Any other width gives the whole text, zero too.
pub proof fn law_plain_text(gs: Seq<Seq<char>>, width: nat)
    requires
        forall|i: int| 0 <= i < gs.len() ==> is_visible(#[trigger] gs[i]),
    ensures
        !has_malformed_escape(gs),
        units(gs) == all_visible(gs),
        visible_count(units(gs)) == gs.len(),
        1 <= width <= gs.len() ==> truncated_text(units(gs), width) == gs.take(
            width as int,
        ).flatten(),
        width == 0 || width > gs.len() ==> truncated_text(units(gs), width) == gs.flatten(),
{
    lemma_plain_prefix(gs, 0, gs.len() as int);
    assert(gs.subrange(0, gs.len() as int) =~= gs);
    assert(all_visible(gs) + Seq::<TermCharView>::empty() =~= all_visible(gs));
    lemma_all_visible(gs);
    law_truncation_point(units(gs), width);
    if 1 <= width <= gs.len() {
        let stop = cut(units(gs), width);
        assert(all_visible(gs).take(stop) =~= all_visible(gs.take(stop)));
        lemma_all_visible(gs.take(stop));
    }
}

/// A text that parses into visible units and style sequences alone, with no
/// escape that lacks its bracket, comes back from rendering its units. It
/// comes back from truncation to its own width but for what stands behind
/// the last visible unit, and only style sequences stand there.
pub proof fn law_round_trip(gs: Seq<Seq<char>>)
    requires
        forall|k: int|
            0 <= k < units(gs).len() ==> (#[trigger] units(gs)[k]) is Visible || is_style(
                units(gs)[k],
            ),
        forall|i: int| 0 <= i < gs.len() && is_escape(#[trigger] gs[i]) ==> at_introducer(gs, i),
    ensures
        !has_malformed_escape(gs),
        render(units(gs)) == gs.flatten(),
        ({
            let width = visible_count(units(gs));
            let stop = cut(units(gs), width);
            &&& truncated_text(units(gs), width) + render(units(gs).skip(stop)) == gs.flatten()
            &&& forall|k: int| stop <= k < units(gs).len() ==> is_style(#[trigger] units(gs)[k])
        }),
{
    let us = units(gs);
    let width = visible_count(us);
    let stop = cut(us, width);
    lemma_rendered_tokens(gs, 0);
    assert(gs.skip(0) =~= gs);
    law_truncation_point(us, width);
    law_truncation_is_prefix(us, width);
    assert(us =~= us.take(stop) + us.skip(stop));
    lemma_concat(us.take(stop), us.skip(stop));
    lemma_visible_count_bounds(us.skip(stop));
    assert forall|k: int| stop <= k < us.len() implies is_style(#[trigger] us[k]) by {
        assert(us[k] == us.skip(stop)[k - stop]);
    }
}

/// The graphemes that well-formed units render to parse, strictly too, into
/// the units among them that render. So what a parsed text renders to
/// parses into a text of the same width.
pub proof fn law_rendering_reparses(us: Seq<TermCharView>)
    requires
        forall|k: int| 0 <= k < us.len() ==> unit_well_formed(#[trigger] us[k]),
    ensures
        !has_malformed_escape(rendered_graphemes(us)),
        units(rendered_graphemes(us)) == shown(us),
        visible_count(units(rendered_graphemes(us))) == visible_count(us),
{
    let gs = rendered_graphemes(us);
    assert(gs.skip(0) =~= gs);
    lemma_reparse_from(gs, 0, us);
    lemma_shown(us);
}

/// Truncation to a width that the run reaches keeps the leading units up to
/// and including the visible unit of that number, and so that many visible
/// units. Truncation to a width that the run does not reach, or to zero,
/// keeps every unit.
pub proof fn law_truncation_point(units: Seq<TermCharView>, width: nat)
    ensures
        0 <= cut(units, width) <= units.len(),
        1 <= width <= visible_count(units) ==> ({
            let stop = cut(units, width);
            &&& 0 < stop
            &&& units[stop - 1] is Visible
            &&& visible_count(units.take(stop)) == width
        }),
        width == 0 || width > visible_count(units) ==> ({
            &&& cut(units, width) == units.len()
            &&& truncated_text(units, width) == render(units)
        }),
{
    lemma_cut_from(units, 0, width as int);
    assert(units.skip(0) =~= units);
    assert(units.take(units.len() as int) =~= units);
}

/// Truncation gives the front of the rendering: the rendering is the
/// truncated text and then what the units behind the stop render to.
pub proof fn law_truncation_is_prefix(units: Seq<TermCharView>, width: nat)
    ensures
        render(units) == truncated_text(units, width) + render(units.skip(cut(units, width))),
{
    let stop = cut(units, width);
    law_truncation_point(units, width);
    assert(units =~= units.take(stop) + units.skip(stop));
    lemma_concat(units.take(stop), units.skip(stop));
}

/// A run that is at least as wide as asked for gets no padding: padding and
/// truncating it is truncating it.
pub proof fn law_wide_run_is_not_padded(units: Seq<TermCharView>, width: nat, pad: char)
    requires
        visible_count(units) >= width,
    ensures
        padded_text(units, width, pad) == truncated_text(units, width),
{
    assert(Seq::new(0, |i: int| pad) + truncated_text(units, width) =~= truncated_text(
        units,
        width,
    ));
}

/// Padding a run that is at most as wide as asked for brings it to that
/// width exactly: the pad characters and the visible units that are kept
/// are together as many as asked for.
pub proof fn law_padded_width(units: Seq<TermCharView>, width: nat)
    requires
        width >= visible_count(units),
    ensures
        deficit(units, width) + visible_count(units.take(cut(units, width))) == width,
{
    law_truncation_point(units, width);
    if width == 0 || width > visible_count(units) {
        assert(units.take(units.len() as int) =~= units);
    }
}

/// Padding a run that is at most as wide as asked for puts the missing pad
/// characters in front of the whole rendering, as long as nothing that
/// renders stands behind the point where truncation stops. A run narrower
/// than asked for, and any run at width zero, has nothing at all behind
/// that point.
pub proof fn law_padding_keeps_text(units: Seq<TermCharView>, width: nat, pad: char)
    requires
        width >= visible_count(units),
        forall|i: int|
            cut(units, width) <= i < units.len() ==> (#[trigger] unit_text(units[i])).len() == 0,
    ensures
        padded_text(units, width, pad) == Seq::new(
            (width - visible_count(units)) as nat,
            |i: int| pad,
        ) + render(units),
        width > visible_count(units) || width == 0 ==> cut(units, width) == units.len(),
{
    law_truncation_point(units, width);
    law_truncation_is_prefix(units, width);
    lemma_renders_nothing(units.skip(cut(units, width)));
    assert(truncated_text(units, width) + Seq::<char>::empty() =~= truncated_text(units, width));
}

/// Padding in front of a run that is at most as wide as asked for gives a
/// text of exactly that width, if the pad character is one that shows: the
/// pad characters and the graphemes of what truncation keeps make up the
/// padded text, and parse into as many visible units as asked for.
pub proof fn law_padded_text_reparses(us: Seq<TermCharView>, width: nat, pad: char)
    requires
        width >= visible_count(us),
        is_visible(seq![pad]),
        forall|k: int| 0 <= k < us.len() ==> unit_well_formed(#[trigger] us[k]),
    ensures
        ({
            let pads = Seq::new(deficit(us, width), |i: int| seq![pad]);
            let gs = pads + rendered_graphemes(us.take(cut(us, width)));
            &&& gs.flatten() == padded_text(us, width, pad)
            &&& !has_malformed_escape(gs)
            &&& visible_count(units(gs)) == width
        }),
{
    let pads = Seq::new(deficit(us, width), |i: int| seq![pad]);
    let kept = us.take(cut(us, width));
    let gs = pads + rendered_graphemes(kept);
    law_truncation_point(us, width);
    law_padded_width(us, width);
    lemma_pad_text(pad, deficit(us, width));
    lemma_shown(kept);
    vstd::seq_lib::lemma_flatten_concat(pads, rendered_graphemes(kept));
    assert(gs.skip(pads.len() as int) =~= rendered_graphemes(kept));
    lemma_reparse_from(gs, pads.len() as int, kept);
    lemma_plain_prefix(gs, 0, pads.len() as int);
    lemma_concat(all_visible(gs.subrange(0, pads.len() as int)), shown(kept));
    assert(gs.subrange(0, pads.len() as int) =~= pads);
    lemma_all_visible(pads);
}

/// From any token on, every unit is well formed.
proof fn lemma_well_formed_from(gs: Seq<Seq<char>>, pos: int)
    requires
        0 <= pos <= gs.len(),
    ensures
        forall|k: int|
            0 <= k < units_from(gs, pos).len() ==> unit_well_formed(
                #[trigger] units_from(gs, pos)[k],
            ),
    decreases gs.len() - pos,
{
    if pos < gs.len() {
        let end = token_end(gs, pos);
        let head = token_units(gs, pos);
        lemma_token_end_bounds(gs, pos);
        lemma_well_formed_from(gs, end);
        if at_introducer(gs, pos) && csi_complete(gs, pos + 2) {
            let raw = gs.subrange(pos, end);
            let from = pos + 2;
            law_csi_grammar(gs, from);
            let (inter, last) = choose|inter: int, last: int|
                #[trigger] csi_body(gs, from, inter, last);
            assert(csi_body(raw, 2, inter - pos, last - pos)) by {
                assert forall|i: int| 2 <= i < inter - pos implies is_parameter(
                    #[trigger] raw[i],
                ) by {
                    assert(raw[i] == gs[pos + i]);
                }
                assert forall|i: int| inter - pos <= i < last - pos implies is_intermediate(
                    #[trigger] raw[i],
                ) by {
                    assert(raw[i] == gs[pos + i]);
                }
            }
            law_csi_grammar(raw, 2);
            assert(unit_well_formed(head[0]));
        }
        assert forall|k: int| 0 <= k < units_from(gs, pos).len() implies unit_well_formed(
            #[trigger] units_from(gs, pos)[k],
        ) by {
            if k >= head.len() {
                assert(units_from(gs, pos)[k] == units_from(gs, end)[k - head.len()]);
            } else {
                assert(units_from(gs, pos)[k] == head[k]);
            }
        }
    }
}

/// A malformed token from `pos` on stands somewhere from `pos` on.
proof fn lemma_malformed_from(gs: Seq<Seq<char>>, pos: int)
    requires
        0 <= pos <= gs.len(),
        malformed_from(gs, pos),
    ensures
        exists|i: int| pos <= i < gs.len() && #[trigger] token_malformed(gs, i),
    decreases gs.len() - pos,
{
    if !token_malformed(gs, pos) {
        lemma_token_end_bounds(gs, pos);
        lemma_malformed_from(gs, token_end(gs, pos));
    }
}

/// Graphemes other than the escape, up to `end`, are tokens of their own.
proof fn lemma_no_escape_prefix(gs: Seq<Seq<char>>, pos: int, end: int)
    requires
        0 <= pos <= end <= gs.len(),
        forall|k: int| pos <= k < end ==> !is_escape(#[trigger] gs[k]),
    ensures
        malformed_from(gs, pos) == malformed_from(gs, end),
    decreases end - pos,
{
    if pos < end {
        assert(!is_escape(gs[pos]));
        lemma_no_escape_prefix(gs, pos + 1, end);
    }
}

/// Graphemes that show, up to `end`, are tokens of their own.
proof fn lemma_plain_prefix(gs: Seq<Seq<char>>, pos: int, end: int)
    requires
        0 <= pos <= end <= gs.len(),
        forall|i: int| pos <= i < end ==> is_visible(#[trigger] gs[i]),
    ensures
        malformed_from(gs, pos) == malformed_from(gs, end),
        units_from(gs, pos) == all_visible(gs.subrange(pos, end)) + units_from(gs, end),
    decreases end - pos,
{
    if pos < end {
        assert(is_visible(gs[pos]));
        lemma_plain_prefix(gs, pos + 1, end);
        assert(units_from(gs, pos) =~= all_visible(gs.subrange(pos, end)) + units_from(gs, end));
    } else {
        assert(units_from(gs, pos) =~= all_visible(gs.subrange(pos, end)) + units_from(gs, end));
    }
}

/// Visible units count each and render to their graphemes in order.
proof fn lemma_all_visible(gs: Seq<Seq<char>>)
    ensures
        visible_count(all_visible(gs)) == gs.len(),
        render(all_visible(gs)) == gs.flatten(),
    decreases gs.len(),
{
    if gs.len() > 0 {
        lemma_all_visible(gs.drop_last());
        assert(all_visible(gs).drop_last() =~= all_visible(gs.drop_last()));
        gs.drop_last().lemma_flatten_push(gs.last());
        assert(gs.drop_last().push(gs.last()) =~= gs);
    } else {
        assert(gs.flatten() =~= Seq::<char>::empty());
    }
}

/// From any token on, tokens that yield visible units and style sequences
/// alone, none of them a lone escape, render to their own graphemes.
proof fn lemma_rendered_tokens(gs: Seq<Seq<char>>, pos: int)
    requires
        0 <= pos <= gs.len(),
        forall|k: int|
            0 <= k < units_from(gs, pos).len() ==> (#[trigger] units_from(gs, pos)[k]) is Visible
                || is_style(units_from(gs, pos)[k]),
        forall|i: int| 0 <= i < gs.len() && is_escape(#[trigger] gs[i]) ==> at_introducer(gs, i),
    ensures
        !malformed_from(gs, pos),
        render(units_from(gs, pos)) == gs.skip(pos).flatten(),
    decreases gs.len() - pos,
{
    if pos < gs.len() {
        let end = token_end(gs, pos);
        let head = token_units(gs, pos);
        let tail = units_from(gs, end);
        lemma_token_end_bounds(gs, pos);
        assert forall|k: int| 0 <= k < tail.len() implies (#[trigger] tail[k]) is Visible
            || is_style(tail[k]) by {
            assert(tail[k] == units_from(gs, pos)[head.len() + k]);
        }
        lemma_rendered_tokens(gs, end);
        lemma_concat(head, tail);
        let raw = gs.subrange(pos, end);
        assert(head.len() > 0 ==> head[0] == units_from(gs, pos)[0]);
        if !is_escape(gs[pos]) {
            lemma_single(head[0]);
            assert(raw =~= seq![gs[pos]]);
            raw.lemma_flatten_one_element();
        } else {
            assert(at_introducer(gs, pos));
            lemma_skip_bounds(gs, pos + 2);
            assert(raw[0] == gs[pos]);
            assert(!is_visible(raw[0]));
            lemma_single(head[0]);
        }
        assert(render(head) == raw.flatten());
        assert(gs.skip(pos) =~= raw + gs.skip(end));
        vstd::seq_lib::lemma_flatten_concat(raw, gs.skip(end));
    } else {
        assert(gs.skip(pos).flatten() =~= Seq::<char>::empty());
    }
}

/// Where the graphemes from `pos` on are what well-formed units render to,
/// they parse into the units among those that render.
proof fn lemma_reparse_from(gs: Seq<Seq<char>>, pos: int, us: Seq<TermCharView>)
    requires
        0 <= pos <= gs.len(),
        gs.skip(pos) == rendered_graphemes(us),
        forall|k: int| 0 <= k < us.len() ==> unit_well_formed(#[trigger] us[k]),
    ensures
        !malformed_from(gs, pos),
        units_from(gs, pos) == shown(us),
    decreases us.len(),
{
    if us.len() == 0 {
        assert(gs.skip(pos).len() == 0);
    } else {
        let first = us[0];
        let rest = us.skip(1);
        let taken = unit_graphemes(first);
        let end = pos + taken.len();
        assert(unit_well_formed(first));
        assert(us =~= seq![first] + rest);
        lemma_shown_concat(seq![first], rest);
        assert(seq![first].drop_last() =~= Seq::<TermCharView>::empty());
        assert(rendered_graphemes(Seq::<TermCharView>::empty()) =~= Seq::<Seq<char>>::empty());
        assert(shown(Seq::<TermCharView>::empty()) =~= Seq::<TermCharView>::empty());
        assert(rendered_graphemes(seq![first]) =~= taken);
        let ahead = taken + rendered_graphemes(rest);
        assert(gs.skip(pos) == ahead);
        assert(gs.len() - pos == ahead.len());
        assert(gs.skip(end) =~= rendered_graphemes(rest)) by {
            assert forall|i: int| 0 <= i < gs.len() - end implies gs.skip(end)[i]
                == rendered_graphemes(rest)[i] by {
                assert(gs.skip(end)[i] == gs.skip(pos)[taken.len() + i]);
                assert(ahead[taken.len() + i] == rendered_graphemes(rest)[i]);
            }
        }
        assert forall|k: int| 0 <= k < rest.len() implies unit_well_formed(#[trigger] rest[k]) by {
            assert(rest[k] == us[k + 1]);
        }
        lemma_reparse_from(gs, end, rest);
        assert forall|i: int| 0 <= i < taken.len() implies gs[pos + i] == taken[i] by {
            assert(gs[pos + i] == gs.skip(pos)[i]);
        }
        if first is Visible {
            assert(gs[pos] == taken[0]);
            assert(units_from(gs, pos) =~= shown(us));
        } else if is_style(first) {
            let from = pos + 2;
            assert(gs[pos] == taken[0]);
            assert(gs[pos + 1] == taken[1]);
            law_csi_grammar(taken, 2);
            let (inter, last) = choose|inter: int, last: int|
                #[trigger] csi_body(taken, 2, inter, last);
            assert(csi_body(gs, from, pos + inter, pos + last)) by {
                assert forall|i: int| from <= i < pos + inter implies is_parameter(
                    #[trigger] gs[i],
                ) by {
                    assert(gs[i] == taken[i - pos]);
                }
                assert forall|i: int| pos + inter <= i < pos + last implies is_intermediate(
                    #[trigger] gs[i],
                ) by {
                    assert(gs[i] == taken[i - pos]);
                }
                assert(gs[pos + last] == taken[last]);
            }
            law_csi_grammar(gs, from);
            assert(token_end(gs, pos) == end);
            assert(gs.subrange(pos, end) =~= taken);
            assert(units_from(gs, pos) =~= shown(us));
        } else {
            assert(shown(us) =~= shown(rest));
        }
    }
}

/// Units without text render to nothing.
proof fn lemma_renders_nothing(units: Seq<TermCharView>)
    requires
        forall|i: int| 0 <= i < units.len() ==> (#[trigger] unit_text(units[i])).len() == 0,
    ensures
        render(units) == Seq::<char>::empty(),
    decreases units.len(),
{
    if units.len() > 0 {
        assert forall|i: int| 0 <= i < units.len() - 1 implies (#[trigger] unit_text(
            units.drop_last()[i],
        )).len() == 0 by {
            assert(units.drop_last()[i] == units[i]);
        }
        lemma_renders_nothing(units.drop_last());
        assert(render(units) =~= Seq::<char>::empty());
    }
}

/// Pad characters as graphemes make up the pad text.
proof fn lemma_pad_text(pad: char, count: nat)
    ensures
        Seq::new(count, |i: int| seq![pad]).flatten() == Seq::new(count, |i: int| pad),
    decreases count,
{
    let pads = Seq::new(count, |i: int| seq![pad]);
    if count == 0 {
        assert(pads.flatten() =~= Seq::new(count, |i: int| pad));
    } else {
        let fewer = Seq::new((count - 1) as nat, |i: int| seq![pad]);
        lemma_pad_text(pad, (count - 1) as nat);
        assert(pads =~= fewer.push(seq![pad]));
        fewer.lemma_flatten_push(seq![pad]);
        assert(pads.flatten() =~= Seq::new(count, |i: int| pad));
    }
}

} // verus!
