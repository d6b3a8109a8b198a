//! Rewriting the vertex lines of a tagged mesh text while every other line
//! stays as it is.
//!
//! A text is scanned into a ledger with one slot for each line, and into the
//! vertices that its vertex lines hold. The caller computes new coordinates,
//! and the ledger is filled with them: the vertex lines are written anew, in
//! the order in which they were read, and the other lines come out unchanged.

use crate::number::is_float_token;
use crate::text::{chars_of, split_tokens, tokens};
use crate::vertex::{is_coords, is_finite_coords, vertex_line, vertex_tag, Vertex};
use vstd::prelude::*;

verus! {

/// What is wrong with a line that starts with the vertex tag.
#[derive(Clone, Copy, Debug, PartialEq, Eq)]
pub enum VertexFault {
    /// The tag is not followed by three tokens.
    Arity,
    /// One of the three tokens after the tag is not a number.
    Number,
}

/// Why a text cannot be scanned. The line is counted from zero.
#[derive(Clone, Copy, Debug, PartialEq, Eq)]
pub enum VertexError {
    /// The line starts with the vertex tag, which is not followed by three
    /// tokens.
    Arity { line: usize },
    /// The line starts with the vertex tag and three tokens, one of which is
    /// not a number.
    Number { line: usize },
}

/// Why a ledger cannot be filled.
#[derive(Clone, Copy, Debug, PartialEq, Eq)]
pub enum FillError {
    /// The vertices are not as many as the pending slots.
    Count,
    /// The vertex with this index, counted from zero, has a coordinate that
    /// is not a number in decimal notation: it is the text of an infinity or
    /// of a value that is no number, or no text of a number at all.
    NotFinite { vertex: usize },
}

/// One slot of the ledger.
#[derive(Debug)]
enum Slot {
    /// A line that is kept, with its text.
    PassThrough(String),
    /// The place of a vertex line that is to be written anew.
    Pending,
}

/// One slot for each line of a text, in the order of the lines. Its view
/// holds the text of a line that is kept, and `None` for a pending slot.
#[derive(Debug)]
pub struct Ledger {
    slots: Vec<Slot>,
}

/// Whether the first token is the vertex tag.
pub open spec fn has_vertex_tag(toks: Seq<Seq<char>>) -> bool {
    toks.len() >= 1 && toks[0] == vertex_tag()
}

/// A vertex line: the tag and three numbers.
pub open spec fn is_vertex_line(toks: Seq<Seq<char>>) -> bool {
    has_vertex_tag(toks) && is_coords(toks.skip(1))
}

/// What is wrong with a line, if anything. A line without the vertex tag is
/// never wrong.
pub open spec fn vertex_fault(toks: Seq<Seq<char>>) -> Option<VertexFault> {
    if !has_vertex_tag(toks) {
        None
    } else if toks.len() != 4 {
        Some(VertexFault::Arity)
    } else if !is_coords(toks.skip(1)) {
        Some(VertexFault::Number)
    } else {
        None
    }
}

/// The error for the line with the index `line`, if it has one.
pub open spec fn error_of(toks: Seq<Seq<char>>, line: nat) -> Option<VertexError> {
    match vertex_fault(toks) {
        Some(VertexFault::Arity) => Some(VertexError::Arity { line: line as usize }),
        Some(VertexFault::Number) => Some(VertexError::Number { line: line as usize }),
        None => None,
    }
}

/// The error of the first of `lines` that has one.
pub open spec fn first_error(lines: Seq<Seq<char>>) -> Option<VertexError>
    decreases lines.len(),
{
    if lines.len() == 0 {
        None
    } else {
        match first_error(lines.drop_last()) {
            Some(e) => Some(e),
            None => error_of(tokens(lines.last()), (lines.len() - 1) as nat),
        }
    }
}

/// The slot of a line: pending for a vertex line, else the line itself.
pub open spec fn slot_of(line: Seq<char>) -> Option<Seq<char>> {
    if is_vertex_line(tokens(line)) {
        None
    } else {
        Some(line)
    }
}

/// The slots of `lines`, one for each line.
pub open spec fn slots_of(lines: Seq<Seq<char>>) -> Seq<Option<Seq<char>>> {
    lines.map_values(|line: Seq<char>| slot_of(line))
}

/// The coordinates on the vertex lines among `lines`, in the order of the
/// lines.
pub open spec fn vertices_of(lines: Seq<Seq<char>>) -> Seq<Seq<Seq<char>>>
    decreases lines.len(),
{
    if lines.len() == 0 {
        Seq::empty()
    } else if is_vertex_line(tokens(lines.last())) {
        vertices_of(lines.drop_last()).push(tokens(lines.last()).skip(1))
    } else {
        vertices_of(lines.drop_last())
    }
}

/// The number of pending slots.
pub open spec fn pending_count(slots: Seq<Option<Seq<char>>>) -> nat
    decreases slots.len(),
{
    if slots.len() == 0 {
        0
    } else if slots.last() is None {
        pending_count(slots.drop_last()) + 1
    } else {
        pending_count(slots.drop_last())
    }
}

/// The lines of a filled ledger: a line that was kept stands where it stood,
/// and a pending slot that has `k` pending slots before it holds the vertex
/// line of `verts[k]`.
pub open spec fn filled(slots: Seq<Option<Seq<char>>>, verts: Seq<Seq<Seq<char>>>) -> Seq<
    Seq<char>,
> {
    Seq::new(
        slots.len(),
        |i: int|
            match slots[i] {
                Some(line) => line,
                None => vertex_line(verts[pending_count(slots.take(i)) as int]),
            },
    )
}

/// The index of the first of `verts` that is not three numbers in decimal
/// notation.
pub open spec fn first_not_finite(verts: Seq<Seq<Seq<char>>>) -> Option<nat>
    decreases verts.len(),
{
    if verts.len() == 0 {
        None
    } else {
        match first_not_finite(verts.drop_last()) {
            Some(k) => Some(k),
            None => if is_finite_coords(verts.last()) {
                None
            } else {
                Some((verts.len() - 1) as nat)
            },
        }
    }
}

/// The text that comes of filling `slots` with `verts`: the lines of the
/// filled ledger, where the vertices are as many as the pending slots and
/// each of them is three numbers in decimal notation.
pub open spec fn fill_spec(slots: Seq<Option<Seq<char>>>, verts: Seq<Seq<Seq<char>>>) -> Result<
    Seq<Seq<char>>,
    FillError,
> {
    if verts.len() != pending_count(slots) {
        Err(FillError::Count)
    } else {
        match first_not_finite(verts) {
            Some(k) => Err(FillError::NotFinite { vertex: k as usize }),
            None => Ok(filled(slots, verts)),
        }
    }
}

/// The first of some first vertices that is not finite is the first of all.
pub proof fn lemma_first_not_finite_is_final(verts: Seq<Seq<Seq<char>>>, k: int)
    requires
        0 <= k <= verts.len(),
        first_not_finite(verts.take(k)) is Some,
    ensures
        first_not_finite(verts) == first_not_finite(verts.take(k)),
    decreases verts.len(),
{
    if k < verts.len() {
        assert(verts.drop_last().take(k) =~= verts.take(k));
        lemma_first_not_finite_is_final(verts.drop_last(), k);
    } else {
        assert(verts.take(k) =~= verts);
    }
}

/// The pending slots of a text are as many as its vertices.
pub proof fn lemma_pending_are_vertices(lines: Seq<Seq<char>>)
    ensures
        pending_count(slots_of(lines)) == vertices_of(lines).len(),
    decreases lines.len(),
{
    if lines.len() > 0 {
        lemma_pending_are_vertices(lines.drop_last());
        assert(slots_of(lines).drop_last() =~= slots_of(lines.drop_last()));
    }
}

/// The first error among some first lines of a text is the first error of
/// the text.
pub proof fn lemma_first_error_is_final(lines: Seq<Seq<char>>, k: int)
    requires
        0 <= k <= lines.len(),
        first_error(lines.take(k)) is Some,
    ensures
        first_error(lines) == first_error(lines.take(k)),
    decreases lines.len(),
{
    if k < lines.len() {
        assert(lines.drop_last().take(k) =~= lines.take(k));
        lemma_first_error_is_final(lines.drop_last(), k);
    } else {
        assert(lines.take(k) =~= lines);
    }
}

/// Some first slots hold no more pending slots than all of them.
pub proof fn lemma_pending_count_prefix(slots: Seq<Option<Seq<char>>>, k: int)
    requires
        0 <= k <= slots.len(),
    ensures
        pending_count(slots.take(k)) <= pending_count(slots),
    decreases slots.len(),
{
    if k < slots.len() {
        assert(slots.drop_last().take(k) =~= slots.take(k));
        lemma_pending_count_prefix(slots.drop_last(), k);
    } else {
        assert(slots.take(k) =~= slots);
    }
}

impl View for Ledger {
    type V = Seq<Option<Seq<char>>>;

    closed spec fn view(&self) -> Seq<Option<Seq<char>>> {
        self.slots@.map_values(
            |slot: Slot|
                match slot {
                    Slot::PassThrough(line) => Some(line@),
                    Slot::Pending => None,
                },
        )
    }
}

fn has_vertex_tag_at_front(toks: &Vec<String>) -> (b: bool)
    ensures
        b == has_vertex_tag(toks.deep_view()),
{
    if toks.len() == 0 {
        return false;
    }
    let first = chars_of(toks[0].as_str());
    let b = first.len() == 1 && first[0] == 'v';
    assert(b == (first@ =~= vertex_tag()));
    b
}

/// The vertex on a vertex line, nothing for a line without the tag, or what
/// is wrong with the line.
fn read_tagged_vertex(toks: &Vec<String>) -> (r: Result<Option<Vertex>, VertexFault>)
    ensures
        match vertex_fault(toks.deep_view()) {
            Some(fault) => r == Err::<Option<Vertex>, VertexFault>(fault),
            None => match r {
                Ok(Some(v)) => is_vertex_line(toks.deep_view()) && v@ == toks.deep_view().skip(1),
                Ok(None) => !is_vertex_line(toks.deep_view()),
                Err(_) => false,
            },
        },
{
    if !has_vertex_tag_at_front(toks) {
        return Ok(None);
    }
    if toks.len() != 4 {
        return Err(VertexFault::Arity);
    }
    if is_float_token(toks[1].as_str()) && is_float_token(toks[2].as_str()) && is_float_token(
        toks[3].as_str(),
    ) {
        let v = Vertex { x: toks[1].clone(), y: toks[2].clone(), z: toks[3].clone() };
        assert(v@ =~= toks.deep_view().skip(1));
        Ok(Some(v))
    } else {
        Err(VertexFault::Number)
    }
}

/// Scans the lines of a text in the tagged format: the ledger of the text
/// and the vertices on its vertex lines, in the order of the lines. A line
/// that starts with the vertex tag and is no vertex line is an error.
pub fn scan(lines: &[String]) -> (r: Result<(Ledger, Vec<Vertex>), VertexError>)
    ensures
        match first_error(lines.deep_view()) {
            Some(e) => r == Err::<(Ledger, Vec<Vertex>), VertexError>(e),
            None => r matches Ok((ledger, verts)) && ledger@ == slots_of(lines.deep_view())
                && verts.deep_view() == vertices_of(lines.deep_view()) && pending_count(ledger@)
                == verts.len(),
        },
{
    let ghost text = lines.deep_view();
    let mut slots: Vec<Slot> = Vec::new();
    let mut verts: Vec<Vertex> = Vec::new();
    let mut i: usize = 0;
    assert(text.take(0) =~= Seq::empty());
    while i < lines.len()
        invariant
            text == lines.deep_view(),
            i <= lines.len(),
            first_error(text.take(i as int)) is None,
            slots.len() == i,
            (Ledger { slots })@ == slots_of(text.take(i as int)),
            verts.deep_view() == vertices_of(text.take(i as int)),
        decreases lines.len() - i,
    {
        let ghost done = text.take(i as int);
        let ghost next = text.take(i + 1);
        assert(next.drop_last() =~= done);
        assert(next.last() == text[i as int]);
        let ghost slots_before = (Ledger { slots })@;
        let ghost verts_before = verts.deep_view();
        let toks = split_tokens(lines[i].as_str());
        match read_tagged_vertex(&toks) {
            Ok(Some(v)) => {
                slots.push(Slot::Pending);
                verts.push(v);
                assert(verts.deep_view() =~= verts_before.push(v@));
            },
            Ok(None) => {
                slots.push(Slot::PassThrough(lines[i].clone()));
            },
            Err(fault) => {
                proof {
                    lemma_first_error_is_final(text, (i + 1) as int);
                }
                return Err(
                    match fault {
                        VertexFault::Arity => VertexError::Arity { line: i },
                        VertexFault::Number => VertexError::Number { line: i },
                    },
                );
            },
        }
        assert((Ledger { slots })@ =~= slots_before.push(slot_of(text[i as int])));
        assert(slots_of(next) =~= slots_of(done).push(slot_of(text[i as int])));
        i += 1;
    }
    assert(text.take(i as int) =~= text);
    proof {
        lemma_pending_are_vertices(text);
    }
    Ok((Ledger { slots }, verts))
}

/// Reads the vertices on the vertex lines of a text in the tagged format, in
/// the order of the lines, as `scan` does, and keeps nothing of the other
/// lines. A line that starts with the vertex tag and is no vertex line is an
/// error here too.
pub fn read_vertices(lines: &[String]) -> (r: Result<Vec<Vertex>, VertexError>)
    ensures
        match first_error(lines.deep_view()) {
            Some(e) => r == Err::<Vec<Vertex>, VertexError>(e),
            None => r matches Ok(verts) && verts.deep_view() == vertices_of(lines.deep_view()),
        },
{
    let ghost text = lines.deep_view();
    let mut verts: Vec<Vertex> = Vec::new();
    let mut i: usize = 0;
    assert(text.take(0) =~= Seq::empty());
    while i < lines.len()
        invariant
            text == lines.deep_view(),
            i <= lines.len(),
            first_error(text.take(i as int)) is None,
            verts.deep_view() == vertices_of(text.take(i as int)),
        decreases lines.len() - i,
    {
        let ghost next = text.take(i + 1);
        assert(next.drop_last() =~= text.take(i as int));
        assert(next.last() == text[i as int]);
        let ghost verts_before = verts.deep_view();
        let toks = split_tokens(lines[i].as_str());
        match read_tagged_vertex(&toks) {
            Ok(Some(v)) => {
                verts.push(v);
                assert(verts.deep_view() =~= verts_before.push(v@));
            },
            Ok(None) => {},
            Err(fault) => {
                proof {
                    lemma_first_error_is_final(text, (i + 1) as int);
                }
                return Err(
                    match fault {
                        VertexFault::Arity => VertexError::Arity { line: i },
                        VertexFault::Number => VertexError::Number { line: i },
                    },
                );
            },
        }
        i += 1;
    }
    assert(text.take(i as int) =~= text);
    Ok(verts)
}

impl Ledger {
    /// The number of slots, which is the number of lines of the text.
    pub fn len(&self) -> (n: usize)
        ensures
            n == self@.len(),
    {
        self.slots.len()
    }

    /// The number of pending slots.
    pub fn pending(&self) -> (n: usize)
        ensures
            n == pending_count(self@),
    {
        let mut n: usize = 0;
        let mut i: usize = 0;
        assert(self@.take(0) =~= Seq::empty());
        while i < self.slots.len()
            invariant
                i <= self.slots.len(),
                n <= i,
                n == pending_count(self@.take(i as int)),
            decreases self.slots.len() - i,
        {
            assert(self@.take(i + 1).drop_last() =~= self@.take(i as int));
            match &self.slots[i] {
                Slot::Pending => {
                    n += 1;
                },
                Slot::PassThrough(_) => {},
            }
            i += 1;
        }
        assert(self@.take(i as int) =~= self@);
        n
    }

    /// Fills the pending slots with the lines of `verts`, the first pending
    /// slot with the first vertex and so on, and gives the lines of the text.
    /// Vertices that are not as many as the pending slots are refused, and
    /// so is a vertex with a coordinate that is not a number in decimal
    /// notation: no infinity and no value that is no number is written.
    pub fn fill(self, verts: &[Vertex]) -> (r: Result<Vec<String>, FillError>)
        ensures
            match fill_spec(self@, verts.deep_view()) {
                Ok(lines) => r matches Ok(out) && out.deep_view() == lines,
                Err(e) => r == Err::<Vec<String>, FillError>(e),
            },
    {
        if self.pending() != verts.len() {
            return Err(FillError::Count);
        }
        let ghost slots = self@;
        let ghost coords = verts.deep_view();
        let mut out: Vec<String> = Vec::new();
        let mut k: usize = 0;
        let mut i: usize = 0;
        assert(slots.take(0) =~= Seq::empty());
        assert(coords.take(0) =~= Seq::empty());
        while i < self.slots.len()
            invariant
                slots == self@,
                coords == verts.deep_view(),
                i <= self.slots.len(),
                k == pending_count(slots.take(i as int)),
                pending_count(slots) == verts.len(),
                first_not_finite(coords.take(k as int)) is None,
                out.len() == i,
                forall|j: int| 0 <= j < i ==> (#[trigger] out@[j])@ == filled(slots, coords)[j],
            decreases self.slots.len() - i,
        {
            assert(slots.take(i + 1).drop_last() =~= slots.take(i as int));
            proof {
                lemma_pending_count_prefix(slots, i + 1);
            }
            match &self.slots[i] {
                Slot::Pending => {
                    assert(coords.take(k + 1).drop_last() =~= coords.take(k as int));
                    assert(coords.take(k + 1).last() == verts@[k as int]@);
                    if !verts[k].is_finite() {
                        proof {
                            lemma_first_not_finite_is_final(coords, k + 1);
                        }
                        return Err(FillError::NotFinite { vertex: k });
                    }
                    out.push(verts[k].line());
                    k += 1;
                },
                Slot::PassThrough(line) => {
                    out.push(line.clone());
                },
            }
            i += 1;
        }
        assert(slots.take(i as int) =~= slots);
        assert(coords.take(k as int) =~= coords);
        assert(out.deep_view() =~= filled(slots, coords));
        Ok(out)
    }
}

/// The positions that are written in the end: those of `target`, where
/// replacing is asked for and `target` has as many vertices as `computed`,
/// else the `computed` ones.
pub fn replace_positions<T>(computed: Vec<T>, target: Option<Vec<T>>, replace: bool) -> (r: Vec<T>)
    ensures
        r == match target {
            Some(t) if replace && t.len() == computed.len() => t,
            _ => computed,
        },
{
    match target {
        Some(t) if replace && t.len() == computed.len() => t,
        _ => computed,
    }
}

} // verus!
