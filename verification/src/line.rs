//! Source lines: an immutable piece of text together with its 0-based
//! position in the originating sequence.

use vstd::prelude::*;

verus! {

/// Mathematical model of a [`SourceLine`]: the text as a sequence of
/// characters and the 0-based position in the originating line sequence.
pub ghost struct LineModel {
    pub text: Seq<char>,
    pub number: nat,
}

/// One line of source text, tagged with its 0-based position in the
/// sequence it was read from. Created once by the source loader and
/// never mutated afterwards.
#[derive(Debug)]
pub struct SourceLine {
    pub text: String,
    pub number: usize,
}

impl View for SourceLine {
    type V = LineModel;

    open spec fn view(&self) -> LineModel {
        LineModel { text: self.text@, number: self.number as nat }
    }
}

impl Clone for SourceLine {
    fn clone(&self) -> (r: Self)
        ensures
            r@ == self@,
    {
        SourceLine { text: self.text.clone(), number: self.number }
    }
}

impl SourceLine {
    pub fn new(text: String, number: usize) -> (r: Self)
        ensures
            r@.text == text@,
            r@.number == number as nat,
    {
        SourceLine { text, number }
    }
}

/// The models of a sequence of source lines, in order.
pub open spec fn line_models(s: Seq<SourceLine>) -> Seq<LineModel> {
    s.map_values(|x: SourceLine| x@)
}

/// Tags each text with its position, producing the line sequence every
/// other component works on: line `i` of the result carries `texts[i]`
/// and the number `i`.
pub fn number_lines(texts: Vec<String>) -> (r: Vec<SourceLine>)
    ensures
        r@.len() == texts@.len(),
        forall|i: int|
            0 <= i < r@.len() ==> r@[i]@.text == texts@[i]@ && r@[i]@.number == i as nat,
{
    let mut out: Vec<SourceLine> = Vec::new();
    let mut i: usize = 0;
    while i < texts.len()
        invariant
            i <= texts@.len(),
            out@.len() == i as nat,
            forall|j: int|
                0 <= j < i as int ==> out@[j]@.text == texts@[j]@ && out@[j]@.number == j as nat,
        decreases texts@.len() - i,
    {
        let t = texts[i].clone();
        out.push(SourceLine { text: t, number: i });
        i = i + 1;
    }
    out
}

} // verus!
