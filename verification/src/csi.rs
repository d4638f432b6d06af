//! Control sequences: what one is made of, the grammar that its graphemes
//! follow after the introducer, and the tokenizer that reads one.

use vstd::prelude::*;
use crate::grapheme::{
    is_bracket, is_escape, is_final, is_intermediate, is_parameter, is_style_final,
    single_byte_of, texts,
};

verus! {

/// What a control sequence is, as plain text: its kind, and its graphemes in
/// order, the introducer included.
pub enum CsiView {
    SGR(Seq<Seq<char>>),
    Other(Seq<Seq<char>>),
}

impl CsiView {
    /// The graphemes of the sequence.
    pub open spec fn tokens(self) -> Seq<Seq<char>> {
        match self {
            CsiView::SGR(tokens) => tokens,
            CsiView::Other(tokens) => tokens,
        }
    }
}

/// The control sequence that a complete run of graphemes forms: a style
/// sequence when its last grapheme is `m`, another sequence otherwise.
pub open spec fn csi_of(tokens: Seq<Seq<char>>) -> CsiView {
    if tokens.len() > 0 && is_style_final(tokens.last()) {
        CsiView::SGR(tokens)
    } else {
        CsiView::Other(tokens)
    }
}

/// A control sequence: its graphemes in order, the introducer included.
#[derive(PartialEq, Eq, Debug)]
pub enum Csi<'a> {
    /// Select Graphic Rendition: colour and style.
    SGR(Vec<&'a str>),
    /// Any other control sequence.
    Other(Vec<&'a str>),
}

impl<'a> View for Csi<'a> {
    type V = CsiView;

    open spec fn view(&self) -> CsiView {
        match self {
            Csi::SGR(tokens) => CsiView::SGR(texts(tokens@)),
            Csi::Other(tokens) => CsiView::Other(texts(tokens@)),
        }
    }
}

impl<'a> Clone for Csi<'a> {
    fn clone(&self) -> (copy: Self)
        ensures
            copy@ == self@,
    {
        match self {
            Csi::SGR(tokens) => {
                let copy = tokens.clone();
                assert(copy@ =~= tokens@);
                Csi::SGR(copy)
            },
            Csi::Other(tokens) => {
                let copy = tokens.clone();
                assert(copy@ =~= tokens@);
                Csi::Other(copy)
            },
        }
    }
}

impl<'a> Csi<'a> {
    /// Tags a complete sequence by its last grapheme.
    pub fn from_valid_graphemes(v: Vec<&'a str>) -> (csi: Csi<'a>)
        requires
            v.len() > 0,
        ensures
            csi@ == csi_of(texts(v@)),
    {
        match single_byte_of(v[v.len() - 1]) {
            Some(0x6d) => Csi::SGR(v),
            _ => Csi::Other(v),
        }
    }
}

/// The first index at or after `from` whose grapheme is no parameter byte;
/// the length of `gs` when every grapheme from there on is one.
pub open spec fn skip_parameters(gs: Seq<Seq<char>>, from: int) -> int
    decreases gs.len() - from,
{
    if 0 <= from < gs.len() && is_parameter(gs[from]) {
        skip_parameters(gs, from + 1)
    } else {
        from
    }
}

/// The first index at or after `from` whose grapheme is no intermediate
/// byte; the length of `gs` when every grapheme from there on is one.
pub open spec fn skip_intermediates(gs: Seq<Seq<char>>, from: int) -> int
    decreases gs.len() - from,
{
    if 0 <= from < gs.len() && is_intermediate(gs[from]) {
        skip_intermediates(gs, from + 1)
    } else {
        from
    }
}

/// The index of the grapheme that decides a sequence whose body starts at
/// `from`: the first one after its parameter bytes and the intermediate
/// bytes that follow them.
pub open spec fn csi_decider(gs: Seq<Seq<char>>, from: int) -> int {
    skip_intermediates(gs, skip_parameters(gs, from))
}

/// Whether the body that starts at `from` is well formed: parameter bytes,
/// then intermediate bytes, then a final byte.
pub open spec fn csi_complete(gs: Seq<Seq<char>>, from: int) -> bool {
    let decider = csi_decider(gs, from);
    decider < gs.len() && is_final(gs[decider])
}

/// One past the last grapheme that reading the body from `from` takes: the
/// deciding grapheme is taken whatever it is, and a body that runs out of
/// graphemes takes them all.
pub open spec fn csi_end(gs: Seq<Seq<char>>, from: int) -> int {
    let decider = csi_decider(gs, from);
    if decider < gs.len() {
        decider + 1
    } else {
        decider
    }
}

/// Skipping never moves backwards and never leaves the run.
pub proof fn lemma_skip_bounds(gs: Seq<Seq<char>>, from: int)
    requires
        0 <= from <= gs.len(),
    ensures
        from <= skip_parameters(gs, from) <= gs.len(),
        from <= skip_intermediates(gs, from) <= gs.len(),
        from <= csi_decider(gs, from) <= gs.len(),
        from <= csi_end(gs, from) <= gs.len(),
    decreases gs.len() - from,
{
    if from < gs.len() {
        lemma_skip_bounds(gs, from + 1);
    }
    lemma_skip_intermediates_bounds(gs, skip_parameters(gs, from));
}

proof fn lemma_skip_intermediates_bounds(gs: Seq<Seq<char>>, from: int)
    requires
        0 <= from <= gs.len(),
    ensures
        from <= skip_intermediates(gs, from) <= gs.len(),
    decreases gs.len() - from,
{
    if from < gs.len() {
        lemma_skip_intermediates_bounds(gs, from + 1);
    }
}

/// The grammar of a body that starts at `from`: parameter bytes up to
/// `inter`, intermediate bytes from there up to `last`, and a final byte at
/// `last`.
pub open spec fn csi_body(gs: Seq<Seq<char>>, from: int, inter: int, last: int) -> bool {
    &&& 0 <= from <= inter <= last < gs.len()
    &&& forall|i: int| from <= i < inter ==> is_parameter(#[trigger] gs[i])
    &&& forall|i: int| inter <= i < last ==> is_intermediate(#[trigger] gs[i])
    &&& is_final(gs[last])
}

/// Skipping passes graphemes of its class alone, and stops at the first
/// grapheme of another class.
proof fn lemma_skip_run(gs: Seq<Seq<char>>, from: int)
    requires
        0 <= from <= gs.len(),
    ensures
        forall|i: int| from <= i < skip_parameters(gs, from) ==> is_parameter(#[trigger] gs[i]),
        skip_parameters(gs, from) < gs.len() ==> !is_parameter(gs[skip_parameters(gs, from)]),
        forall|i: int|
            from <= i < skip_intermediates(gs, from) ==> is_intermediate(#[trigger] gs[i]),
        skip_intermediates(gs, from) < gs.len() ==> !is_intermediate(
            gs[skip_intermediates(gs, from)],
        ),
    decreases gs.len() - from,
{
    if from < gs.len() {
        lemma_skip_run(gs, from + 1);
    }
}

/// Skipping stops nowhere but at the first grapheme of another class.
proof fn lemma_skip_unique(gs: Seq<Seq<char>>, from: int, stop: int)
    requires
        0 <= from <= stop <= gs.len(),
    ensures
        (forall|i: int| from <= i < stop ==> is_parameter(#[trigger] gs[i])) && (stop < gs.len()
            ==> !is_parameter(gs[stop])) ==> skip_parameters(gs, from) == stop,
        (forall|i: int| from <= i < stop ==> is_intermediate(#[trigger] gs[i])) && (stop
            < gs.len() ==> !is_intermediate(gs[stop])) ==> skip_intermediates(gs, from) == stop,
    decreases stop - from,
{
    if from < stop {
        lemma_skip_unique(gs, from + 1, stop);
    }
}

/// A body is well formed exactly when it follows the grammar, and the
/// graphemes taken for it then end with its final byte.
pub proof fn law_csi_grammar(gs: Seq<Seq<char>>, from: int)
    requires
        0 <= from <= gs.len(),
    ensures
        csi_complete(gs, from) <==> exists|inter: int, last: int| csi_body(gs, from, inter, last),
        forall|inter: int, last: int| #[trigger]
            csi_body(gs, from, inter, last) ==> inter == skip_parameters(gs, from) && last + 1
                == csi_end(gs, from),
{
    let inter = skip_parameters(gs, from);
    let last = csi_decider(gs, from);
    lemma_skip_bounds(gs, from);
    lemma_skip_bounds(gs, inter);
    lemma_skip_run(gs, from);
    lemma_skip_run(gs, inter);
    if csi_complete(gs, from) {
        assert(csi_body(gs, from, inter, last));
    }
    assert forall|other: int, end: int| #[trigger] csi_body(gs, from, other, end) implies other
        == inter && end == last by {
        lemma_skip_unique(gs, from, other);
        lemma_skip_unique(gs, other, end);
    }
}

/// One of two things.
pub enum Either<L, R> {
    Left(L),
    Right(R),
}

/// Reads the body of a control sequence from `graphemes` at `*pos`, just
/// behind the introducer, and leaves `*pos` behind the last grapheme taken.
/// A well-formed body gives the sequence; any other gives the graphemes
/// taken so far. Either begins with the introducer.
pub fn try_take_csi<'a>(graphemes: &[&'a str], pos: &mut usize) -> (taken: Either<
    Vec<&'a str>,
    Csi<'a>,
>)
    requires
        2 <= *old(pos) <= graphemes@.len(),
        is_escape(graphemes@[*old(pos) - 2]@),
        is_bracket(graphemes@[*old(pos) - 1]@),
    ensures
        *final(pos) == csi_end(texts(graphemes@), *old(pos) as int),
        match taken {
            Either::Right(csi) => csi_complete(texts(graphemes@), *old(pos) as int) && csi@
                == csi_of(texts(graphemes@).subrange(*old(pos) - 2, *final(pos) as int)),
            Either::Left(raw) => !csi_complete(texts(graphemes@), *old(pos) as int) && texts(raw@)
                == texts(graphemes@).subrange(*old(pos) - 2, *final(pos) as int),
        },
{
    let ghost gs = texts(graphemes@);
    let ghost from = *pos as int;
    let mut buffer = vec![graphemes[*pos - 2], graphemes[*pos - 1]];
    let mut have_intermediate_bytes = false;
    assert(texts(buffer@) =~= gs.subrange(from - 2, from));
    while *pos < graphemes.len()
        invariant_except_break
            csi_decider(gs, from) == if have_intermediate_bytes {
                skip_intermediates(gs, *pos as int)
            } else {
                csi_decider(gs, *pos as int)
            },
        invariant
            gs == texts(graphemes@),
            from == *old(pos),
            2 <= from <= *pos <= graphemes@.len(),
            texts(buffer@) == gs.subrange(from - 2, *pos as int),
        ensures
            *pos == csi_end(gs, from),
            !csi_complete(gs, from),
        decreases graphemes@.len() - *pos,
    {
        let point = graphemes[*pos];
        let ghost taken_before = texts(buffer@);
        buffer.push(point);
        *pos += 1;
        assert(texts(buffer@) =~= taken_before.push(point@));
        assert(gs.subrange(from - 2, *pos as int) =~= gs.subrange(from - 2, *pos - 1).push(
            gs[*pos - 1],
        ));
        match single_byte_of(point) {
            // Final byte: the sequence is complete.
            Some(0x40..=0x7e) => {
                return Either::Right(Csi::from_valid_graphemes(buffer));
            },
            // Intermediate bytes, any number of them.
            Some(0x20..=0x2f) => {
                have_intermediate_bytes = true;
            },
            // Parameter bytes may not follow an intermediate byte.
            Some(0x30..=0x3f) => {
                if have_intermediate_bytes {
                    break ;
                }
            },
            _ => break ,
        }
    }
    Either::Left(buffer)
}

} // verus!
