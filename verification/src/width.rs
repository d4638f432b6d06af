//! Width: which units count, what a run of units renders to, and where
//! truncation to a width stops.

use vstd::prelude::*;
use crate::csi::CsiView;
use crate::term_char::TermCharView;

verus! {

/// The number of visible units in a run.
pub open spec fn visible_count(units: Seq<TermCharView>) -> nat
    decreases units.len(),
{
    if units.len() == 0 {
        0
    } else {
        visible_count(units.drop_last()) + if units.last() is Visible {
            1nat
        } else {
            0nat
        }
    }
}

/// The text that a unit renders to. A visible unit renders to itself and a
/// style sequence to its graphemes; nothing else renders.
pub open spec fn unit_text(unit: TermCharView) -> Seq<char> {
    match unit {
        TermCharView::Visible(g) => g,
        TermCharView::CSI(CsiView::SGR(tokens)) => tokens.flatten(),
        _ => Seq::empty(),
    }
}

/// The text that a run of units renders to.
pub open spec fn render(units: Seq<TermCharView>) -> Seq<char>
    decreases units.len(),
{
    if units.len() == 0 {
        Seq::empty()
    } else {
        render(units.drop_last()) + unit_text(units.last())
    }
}

/// The graphemes that a unit renders to.
pub open spec fn unit_graphemes(unit: TermCharView) -> Seq<Seq<char>> {
    match unit {
        TermCharView::Visible(g) => seq![g],
        TermCharView::CSI(CsiView::SGR(tokens)) => tokens,
        _ => Seq::empty(),
    }
}

/// The graphemes that a run of units renders to.
pub open spec fn rendered_graphemes(units: Seq<TermCharView>) -> Seq<Seq<char>>
    decreases units.len(),
{
    if units.len() == 0 {
        Seq::empty()
    } else {
        rendered_graphemes(units.drop_last()) + unit_graphemes(units.last())
    }
}

/// Whether a unit is a style sequence.
pub open spec fn is_style(unit: TermCharView) -> bool {
    unit matches TermCharView::CSI(csi) && csi is SGR
}

/// The units of a run that render: the visible ones and the style
/// sequences, in order.
pub open spec fn shown(units: Seq<TermCharView>) -> Seq<TermCharView>
    decreases units.len(),
{
    if units.len() == 0 {
        Seq::empty()
    } else {
        shown(units.drop_last()) + if units.last() is Visible || is_style(units.last()) {
            seq![units.last()]
        } else {
            Seq::empty()
        }
    }
}

/// Where a walk from `from` stops that still has `need` visible units to
/// go: just behind the visible unit that brings `need` down to nothing, or
/// at the end of the run. A walk that needs nothing when it meets a visible
/// unit does not stop there.
pub open spec fn cut_from(units: Seq<TermCharView>, from: int, need: int) -> int
    decreases units.len() - from,
{
    if 0 <= from < units.len() {
        if units[from] is Visible {
            if need == 1 {
                from + 1
            } else {
                cut_from(units, from + 1, need - 1)
            }
        } else {
            cut_from(units, from + 1, need)
        }
    } else {
        units.len() as int
    }
}

/// The number of leading units that truncation to `width` keeps.
pub open spec fn cut(units: Seq<TermCharView>, width: nat) -> int {
    cut_from(units, 0, width as int)
}

/// A run truncated to `width` visible units, as text.
pub open spec fn truncated_text(units: Seq<TermCharView>, width: nat) -> Seq<char> {
    render(units.take(cut(units, width)))
}

/// The number of pad characters that bring a run up to `width`.
pub open spec fn deficit(units: Seq<TermCharView>, width: nat) -> nat {
    if width > visible_count(units) {
        (width - visible_count(units)) as nat
    } else {
        0
    }
}

/// A run padded on the left up to `width` and truncated to it, as text.
pub open spec fn padded_text(units: Seq<TermCharView>, width: nat, pad: char) -> Seq<char> {
    Seq::new(deficit(units, width), |i: int| pad) + truncated_text(units, width)
}

/// Counting and rendering go unit by unit, so both split where a run does.
pub proof fn lemma_concat(a: Seq<TermCharView>, b: Seq<TermCharView>)
    ensures
        visible_count(a + b) == visible_count(a) + visible_count(b),
        render(a + b) == render(a) + render(b),
    decreases b.len(),
{
    if b.len() == 0 {
        assert(a + b =~= a);
        assert(render(a) + render(b) =~= render(a));
    } else {
        assert((a + b).drop_last() =~= a + b.drop_last());
        lemma_concat(a, b.drop_last());
        assert(render(a + b) =~= render(a) + render(b));
    }
}

/// What renders goes unit by unit too.
pub proof fn lemma_shown_concat(a: Seq<TermCharView>, b: Seq<TermCharView>)
    ensures
        rendered_graphemes(a + b) == rendered_graphemes(a) + rendered_graphemes(b),
        shown(a + b) == shown(a) + shown(b),
    decreases b.len(),
{
    if b.len() == 0 {
        assert(a + b =~= a);
        assert(rendered_graphemes(a) + rendered_graphemes(b) =~= rendered_graphemes(a));
        assert(shown(a) + shown(b) =~= shown(a));
    } else {
        assert((a + b).drop_last() =~= a + b.drop_last());
        lemma_shown_concat(a, b.drop_last());
        assert(rendered_graphemes(a + b) =~= rendered_graphemes(a) + rendered_graphemes(b));
        assert(shown(a + b) =~= shown(a) + shown(b));
    }
}

/// The rendering is its graphemes put together, and the units that render
/// are as wide as all of them.
pub proof fn lemma_shown(units: Seq<TermCharView>)
    ensures
        rendered_graphemes(units).flatten() == render(units),
        visible_count(shown(units)) == visible_count(units),
    decreases units.len(),
{
    if units.len() == 0 {
        assert(rendered_graphemes(units).flatten() =~= render(units));
    } else {
        let last = units.last();
        lemma_shown(units.drop_last());
        vstd::seq_lib::lemma_flatten_concat(
            rendered_graphemes(units.drop_last()),
            unit_graphemes(last),
        );
        if last is Visible {
            unit_graphemes(last).lemma_flatten_one_element();
        } else if !is_style(last) {
            assert(unit_graphemes(last).flatten() =~= Seq::<char>::empty());
        }
        if last is Visible || is_style(last) {
            lemma_concat(shown(units.drop_last()), seq![last]);
            lemma_single(last);
        } else {
            assert(shown(units) =~= shown(units.drop_last()));
        }
    }
}

/// A run of one unit.
pub proof fn lemma_single(unit: TermCharView)
    ensures
        visible_count(seq![unit]) == if unit is Visible {
            1nat
        } else {
            0nat
        },
        render(seq![unit]) == unit_text(unit),
{
    let none = Seq::<TermCharView>::empty();
    assert(seq![unit].drop_last() =~= none);
    assert(visible_count(none) == 0);
    assert(render(none) =~= Seq::<char>::empty());
    assert(render(seq![unit]) =~= unit_text(unit));
}

/// A run holds at most as many visible units as it holds units, and a run
/// that counts none holds none anywhere.
pub proof fn lemma_visible_count_bounds(units: Seq<TermCharView>)
    ensures
        visible_count(units) <= units.len(),
        visible_count(units) == 0 ==> forall|k: int|
            0 <= k < units.len() ==> !(#[trigger] units[k] is Visible),
    decreases units.len(),
{
    if units.len() > 0 {
        lemma_visible_count_bounds(units.drop_last());
        assert forall|k: int| 0 <= k < units.len() - 1 implies units[k] == units.drop_last()[k] by {}
    }
}

/// Where a walk stops, in terms of what lies ahead of it. A walk that needs
/// at least one visible unit and has that many ahead stops behind the one
/// that completes the count. Any other walk reaches the end of the run.
pub proof fn lemma_cut_from(units: Seq<TermCharView>, from: int, need: int)
    requires
        0 <= from <= units.len(),
    ensures
        from <= cut_from(units, from, need) <= units.len(),
        1 <= need <= visible_count(units.skip(from)) ==> ({
            let stop = cut_from(units, from, need);
            &&& from < stop
            &&& units[stop - 1] is Visible
            &&& visible_count(units.subrange(from, stop)) == need
        }),
        need < 1 || need > visible_count(units.skip(from)) ==> cut_from(units, from, need)
            == units.len(),
    decreases units.len() - from,
{
    if from < units.len() {
        let head = seq![units[from]];
        let step = if units[from] is Visible {
            need - 1
        } else {
            need
        };
        lemma_single(units[from]);
        assert(units.skip(from) =~= head + units.skip(from + 1));
        lemma_concat(head, units.skip(from + 1));
        lemma_cut_from(units, from + 1, step);
        if units[from] is Visible && need == 1 {
            assert(units.subrange(from, from + 1) =~= head);
        } else {
            let stop = cut_from(units, from + 1, step);
            assert(units.subrange(from, stop) =~= head + units.subrange(from + 1, stop));
            lemma_concat(head, units.subrange(from + 1, stop));
        }
    } else {
        assert(units.skip(from) =~= Seq::<TermCharView>::empty());
    }
}

} // verus!
