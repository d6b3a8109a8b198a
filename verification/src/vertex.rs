//! A vertex as it stands in a mesh file: the texts of its three coordinates.

use crate::number::{
    is_finite_number, is_finite_token, is_float, is_float_token, lemma_float_is_word,
};
use crate::text::{lemma_tokens_after_space, lemma_tokens_after_word, tokens};
use vstd::prelude::*;

verus! {

/// The texts of the coordinates of one vertex, as they were read from a line
/// or as they are to be written to one.
#[derive(Debug, PartialEq, Eq)]
pub struct Vertex {
    pub x: String,
    pub y: String,
    pub z: String,
}

impl Clone for Vertex {
    fn clone(&self) -> (r: Self)
        ensures
            r == *self,
    {
        Vertex { x: self.x.clone(), y: self.y.clone(), z: self.z.clone() }
    }
}

impl View for Vertex {
    type V = Seq<Seq<char>>;

    /// The three coordinate texts, `x` first.
    open spec fn view(&self) -> Seq<Seq<char>> {
        seq![self.x@, self.y@, self.z@]
    }
}

impl DeepView for Vertex {
    type V = Seq<Seq<char>>;

    open spec fn deep_view(&self) -> Seq<Seq<char>> {
        self@
    }
}

/// The token that opens a vertex line.
pub open spec fn vertex_tag() -> Seq<char> {
    seq!['v']
}

/// Whether `coords` are three texts of floating-point numbers.
pub open spec fn is_coords(coords: Seq<Seq<char>>) -> bool {
    &&& coords.len() == 3
    &&& is_float(coords[0])
    &&& is_float(coords[1])
    &&& is_float(coords[2])
}

/// Whether `coords` are three numbers in decimal notation, none of them the
/// text of an infinity or of a value that is no number.
pub open spec fn is_finite_coords(coords: Seq<Seq<char>>) -> bool {
    &&& coords.len() == 3
    &&& is_finite_number(coords[0])
    &&& is_finite_number(coords[1])
    &&& is_finite_number(coords[2])
}

/// Whether each of `verts` is three texts of floating-point numbers.
pub open spec fn all_coords(verts: Seq<Seq<Seq<char>>>) -> bool {
    forall|i: int| 0 <= i < verts.len() ==> is_coords(#[trigger] verts[i])
}

/// The vertex line of `coords`: the tag and the coordinates, one blank
/// between each two.
pub open spec fn vertex_line(coords: Seq<Seq<char>>) -> Seq<char> {
    vertex_tag() + seq![' '] + coords[0] + seq![' '] + coords[1] + seq![' '] + coords[2]
}

/// Splitting a vertex line gives back the tag and the coordinates.
pub proof fn lemma_vertex_line_tokens(coords: Seq<Seq<char>>)
    requires
        is_coords(coords),
    ensures
        tokens(vertex_line(coords)) == seq![vertex_tag()] + coords,
{
    let blank = seq![' '];
    lemma_float_is_word(coords[0]);
    lemma_float_is_word(coords[1]);
    lemma_float_is_word(coords[2]);
    let r2 = coords[2];
    let r1 = coords[1] + (blank + r2);
    let r0 = coords[0] + (blank + r1);
    assert(tokens(r2) == seq![r2]) by {
        lemma_tokens_after_word(r2, Seq::empty());
        assert(r2 + Seq::<char>::empty() =~= r2);
        assert(tokens(Seq::<char>::empty()) =~= Seq::<Seq<char>>::empty());
    }
    assert(tokens(r1) == seq![coords[1], r2]) by {
        lemma_tokens_after_space(' ', r2);
        lemma_tokens_after_word(coords[1], blank + r2);
    }
    assert(tokens(r0) == seq![coords[0], coords[1], r2]) by {
        lemma_tokens_after_space(' ', r1);
        lemma_tokens_after_word(coords[0], blank + r1);
    }
    assert(tokens(vertex_tag() + (blank + r0)) == seq![vertex_tag(), coords[0], coords[1], r2])
        by {
        lemma_tokens_after_space(' ', r0);
        lemma_tokens_after_word(vertex_tag(), blank + r0);
    }
    assert(vertex_line(coords) =~= vertex_tag() + (blank + r0));
    assert(seq![vertex_tag(), coords[0], coords[1], r2] =~= seq![vertex_tag()] + coords);
}

impl Vertex {
    /// Whether the three coordinates are texts of floating-point numbers.
    pub open spec fn wf(&self) -> bool {
        is_coords(self@)
    }

    /// Tells whether the three coordinates are texts of floating-point
    /// numbers.
    pub fn is_valid(&self) -> (b: bool)
        ensures
            b == self.wf(),
    {
        is_float_token(self.x.as_str()) && is_float_token(self.y.as_str()) && is_float_token(
            self.z.as_str(),
        )
    }

    /// Tells whether the three coordinates are numbers in decimal notation,
    /// none of them the text of an infinity or of a value that is no number.
    pub fn is_finite(&self) -> (b: bool)
        ensures
            b == is_finite_coords(self@),
            b ==> self.wf(),
    {
        is_finite_token(self.x.as_str()) && is_finite_token(self.y.as_str()) && is_finite_token(
            self.z.as_str(),
        )
    }

    /// The line that writes this vertex.
    pub fn line(&self) -> (s: String)
        ensures
            s@ == vertex_line(self@),
    {
        proof {
            reveal_strlit("v ");
            reveal_strlit(" ");
        }
        let mut s = String::from_str("v ");
        s.append(self.x.as_str());
        s.append(" ");
        s.append(self.y.as_str());
        s.append(" ");
        s.append(self.z.as_str());
        assert(s@ =~= vertex_line(self@));
        s
    }
}

} // verus!
