//! The line container: one or many literal lines, as the edit description
//! supplied them.  A scalar line is lifted to a one-element sequence at this
//! boundary, so the rest of the engine only ever sees an ordered sequence.

use vstd::prelude::*;

verus! {

/// One or many literal lines.  A single line stands for the one-element
/// sequence holding exactly that line; order is preserved as supplied.
#[derive(Debug)]
pub enum LineOrLines {
    Line(String),
    Lines(Vec<String>),
}

impl View for LineOrLines {
    type V = Seq<Seq<char>>;

    /// The ordered sequence of lines this container stands for.
    open spec fn view(&self) -> Seq<Seq<char>> {
        match self {
            LineOrLines::Line(line) => seq![line@],
            LineOrLines::Lines(lines) => lines.deep_view(),
        }
    }
}

/// A fresh copy of a vector of lines with the same text.
pub fn clone_lines(lines: &Vec<String>) -> (r: Vec<String>)
    ensures
        r.deep_view() == lines.deep_view(),
{
    let mut r: Vec<String> = Vec::new();
    let mut i: usize = 0;
    while i < lines.len()
        invariant
            i <= lines@.len(),
            r@.len() == i,
            forall|j: int| 0 <= j < i ==> (#[trigger] r@[j])@ == lines@[j]@,
        decreases lines@.len() - i,
    {
        r.push(lines[i].clone());
        i = i + 1;
    }
    proof {
        assert(r.deep_view() =~= lines.deep_view());
    }
    r
}

impl LineOrLines {
    /// The lines as a vector: a scalar yields a one-element sequence, a
    /// sequence is returned unchanged.
    pub fn lines(&self) -> (r: Vec<String>)
        ensures
            r.deep_view() == self@,
    {
        match self {
            LineOrLines::Line(line) => {
                let mut v: Vec<String> = Vec::new();
                v.push(line.clone());
                proof {
                    assert(v.deep_view() =~= seq![line@]);
                }
                v
            },
            LineOrLines::Lines(lines) => clone_lines(lines),
        }
    }

    /// How many lines the container stands for.
    pub fn len(&self) -> (r: usize)
        ensures
            r == self@.len(),
    {
        match self {
            LineOrLines::Line(_) => 1,
            LineOrLines::Lines(lines) => lines.len(),
        }
    }
}

} // verus!
