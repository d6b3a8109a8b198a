//! The header-counted mesh format: a state machine that reads it line by
//! line, and the writer that turns a mesh into tagged vertex and face lines.

use crate::number::{
    decimal_text, decimal_value, is_float_token, is_index, is_unsigned, parse_usize, push_decimal,
    unsigned_value,
};
use crate::text::{chars_of, eq_ignoring_case, spells, split_tokens, tokens};
use crate::vertex::{is_coords, vertex_line, Vertex};
use vstd::prelude::*;

verus! {

/// How far the reader has come. The states are passed in this order and
/// none is entered twice.
#[derive(Clone, Copy, Debug, PartialEq, Eq)]
pub enum State {
    /// Nothing but comments was read: a format tag or the counts may come.
    Header,
    /// The format tag was read: the counts must come.
    Counts,
    /// The counts were read: vertices are being read.
    Verts,
    /// As many vertices as were declared were read: faces are being read.
    Faces,
    /// As many faces as were declared were read: nothing more may come.
    Done,
}

/// Why the reader refuses a line.
#[derive(Clone, Copy, Debug, PartialEq, Eq)]
pub enum Fault {
    /// The line has not the shape that the state allows.
    Malformed,
    /// The line comes after the last face.
    Trailing,
}

/// Why a text is not a mesh.
#[derive(Clone, Copy, Debug, PartialEq, Eq)]
pub enum ParseError {
    /// The line with this index, counted from zero, has not the shape that
    /// the state reached before it allows.
    Malformed { line: usize },
    /// The line with this index, counted from zero, comes after the last
    /// face.
    Trailing { line: usize },
    /// The text ends with another number of vertices or of faces than its
    /// counts line declares.
    CountMismatch,
}

/// All that the reader knows after some lines.
pub struct Machine {
    pub state: State,
    /// The declared number of vertices, zero before the counts line.
    pub vert_count: nat,
    /// The declared number of faces, zero before the counts line.
    pub face_count: nat,
    /// The coordinate texts of the vertices read, in the order of the lines.
    pub verts: Seq<Seq<Seq<char>>>,
    /// The vertex indices of the faces read, in the order of the lines.
    pub faces: Seq<Seq<usize>>,
}

/// A line whose first token starts with `#`.
pub open spec fn is_comment(toks: Seq<Seq<char>>) -> bool {
    toks.len() > 0 && toks[0].len() > 0 && toks[0][0] == '#'
}

/// The single token `OFF`, in any case.
pub open spec fn is_format_tag(toks: Seq<Seq<char>>) -> bool {
    toks.len() == 1 && eq_ignoring_case(toks[0], "off"@)
}

/// Three non-negative integers: the numbers of vertices, faces and edges.
pub open spec fn is_counts(toks: Seq<Seq<char>>) -> bool {
    toks.len() == 3 && is_index(toks[0]) && is_index(toks[1]) && is_index(toks[2])
}

/// A degree, then as many vertex indices as the degree says.
pub open spec fn is_face(toks: Seq<Seq<char>>) -> bool {
    &&& toks.len() >= 1
    &&& is_unsigned(toks[0])
    &&& unsigned_value(toks[0]) == toks.len() - 1
    &&& forall|k: int| 1 <= k < toks.len() ==> is_index(#[trigger] toks[k])
}

/// The vertex indices of a face line, in the order of the line.
pub open spec fn face_of(toks: Seq<Seq<char>>) -> Seq<usize> {
    Seq::new((toks.len() - 1) as nat, |k: int| unsigned_value(toks[k + 1]) as usize)
}

/// The reader before any line.
pub open spec fn start() -> Machine {
    Machine {
        state: State::Header,
        vert_count: 0,
        face_count: 0,
        verts: Seq::empty(),
        faces: Seq::empty(),
    }
}

/// The reader `m` after the counts line `toks`.
pub open spec fn with_counts(m: Machine, toks: Seq<Seq<char>>) -> Machine {
    Machine {
        state: State::Verts,
        vert_count: unsigned_value(toks[0]),
        face_count: unsigned_value(toks[1]),
        ..m
    }
}

/// The reader `m` after the vertex line `toks`.
pub open spec fn with_vertex(m: Machine, toks: Seq<Seq<char>>) -> Machine {
    Machine {
        state: if m.verts.len() + 1 == m.vert_count {
            State::Faces
        } else {
            State::Verts
        },
        verts: m.verts.push(toks),
        ..m
    }
}

/// The reader `m` after the face line `toks`.
pub open spec fn with_face(m: Machine, toks: Seq<Seq<char>>) -> Machine {
    Machine {
        state: if m.faces.len() + 1 == m.face_count {
            State::Done
        } else {
            State::Faces
        },
        faces: m.faces.push(face_of(toks)),
        ..m
    }
}

/// The transition of the reader `m` on a line with the tokens `toks`: the
/// reader after the line, or the reason why the line is refused. A comment
/// changes nothing in any state.
pub open spec fn step(m: Machine, toks: Seq<Seq<char>>) -> Result<Machine, Fault> {
    if is_comment(toks) {
        Ok(m)
    } else {
        match m.state {
            State::Done => Err(Fault::Trailing),
            State::Header => if is_format_tag(toks) {
                Ok(Machine { state: State::Counts, ..m })
            } else if is_counts(toks) {
                Ok(with_counts(m, toks))
            } else {
                Err(Fault::Malformed)
            },
            State::Counts => if is_counts(toks) {
                Ok(with_counts(m, toks))
            } else {
                Err(Fault::Malformed)
            },
            State::Verts => if is_coords(toks) {
                Ok(with_vertex(m, toks))
            } else {
                Err(Fault::Malformed)
            },
            State::Faces => if is_face(toks) {
                Ok(with_face(m, toks))
            } else {
                Err(Fault::Malformed)
            },
        }
    }
}

/// The error for a line that is refused.
pub open spec fn error_at(fault: Fault, line: nat) -> ParseError {
    match fault {
        Fault::Malformed => ParseError::Malformed { line: line as usize },
        Fault::Trailing => ParseError::Trailing { line: line as usize },
    }
}

/// The reader after the first `n` of `lines`, or the error of the first line
/// among them that is refused.
pub open spec fn after(lines: Seq<Seq<char>>, n: nat) -> Result<Machine, ParseError>
    decreases n,
{
    if n == 0 {
        Ok(start())
    } else {
        match after(lines, (n - 1) as nat) {
            Err(e) => Err(e),
            Ok(m) => match step(m, tokens(lines[n - 1])) {
                Ok(next) => Ok(next),
                Err(fault) => Err(error_at(fault, (n - 1) as nat)),
            },
        }
    }
}

/// The mesh that the reader `m` holds at the end of the text: all it has
/// read, where that is as many vertices and faces as were declared.
pub open spec fn finish(m: Machine) -> Result<(Seq<Seq<Seq<char>>>, Seq<Seq<usize>>), ParseError> {
    if m.verts.len() == m.vert_count && m.faces.len() == m.face_count {
        Ok((m.verts, m.faces))
    } else {
        Err(ParseError::CountMismatch)
    }
}

/// The mesh that `lines` describe: the coordinate texts of its vertices and
/// the vertex indices of its faces, or why they describe none.
pub open spec fn parse_spec(lines: Seq<Seq<char>>) -> Result<
    (Seq<Seq<Seq<char>>>, Seq<Seq<usize>>),
    ParseError,
> {
    match after(lines, lines.len()) {
        Err(e) => Err(e),
        Ok(m) => finish(m),
    }
}

/// Once a line was refused, the lines after it change nothing.
pub proof fn lemma_error_is_final(lines: Seq<Seq<char>>, k: nat, n: nat)
    requires
        k <= n,
        after(lines, k) is Err,
    ensures
        after(lines, n) == after(lines, k),
    decreases n,
{
    if k < n {
        lemma_error_is_final(lines, k, (n - 1) as nat);
    }
}

fn is_comment_line(toks: &Vec<String>) -> (b: bool)
    ensures
        b == is_comment(toks.deep_view()),
{
    toks.len() > 0 && !toks[0].as_str().is_empty() && toks[0].as_str().get_char(0) == '#'
}

fn is_format_tag_line(toks: &Vec<String>) -> (b: bool)
    ensures
        b == is_format_tag(toks.deep_view()),
{
    if toks.len() != 1 {
        return false;
    }
    let chars = chars_of(toks[0].as_str());
    assert(chars@.skip(0) =~= chars@);
    spells(&chars, 0, "off")
}

/// The declared numbers of vertices and of faces, where `toks` is a counts
/// line.
fn read_counts(toks: &Vec<String>) -> (r: Option<(usize, usize)>)
    ensures
        r == if is_counts(toks.deep_view()) {
            Some(
                (
                    unsigned_value(toks.deep_view()[0]) as usize,
                    unsigned_value(toks.deep_view()[1]) as usize,
                ),
            )
        } else {
            None
        },
{
    if toks.len() != 3 {
        return None;
    }
    match (
        parse_usize(toks[0].as_str()),
        parse_usize(toks[1].as_str()),
        parse_usize(toks[2].as_str()),
    ) {
        (Some(v), Some(f), Some(_)) => Some((v, f)),
        _ => None,
    }
}

/// The vertex of `toks`, where `toks` are three coordinates.
fn read_vertex(toks: &Vec<String>) -> (r: Option<Vertex>)
    ensures
        match r {
            Some(v) => is_coords(toks.deep_view()) && v@ == toks.deep_view(),
            None => !is_coords(toks.deep_view()),
        },
{
    if toks.len() != 3 {
        return None;
    }
    if is_float_token(toks[0].as_str()) && is_float_token(toks[1].as_str()) && is_float_token(
        toks[2].as_str(),
    ) {
        let v = Vertex { x: toks[0].clone(), y: toks[1].clone(), z: toks[2].clone() };
        assert(v@ =~= toks.deep_view());
        Some(v)
    } else {
        None
    }
}

/// The vertex indices of `toks`, where `toks` is a face line.
fn read_face(toks: &Vec<String>) -> (r: Option<Vec<usize>>)
    ensures
        match r {
            Some(face) => is_face(toks.deep_view()) && face@ == face_of(toks.deep_view()),
            None => !is_face(toks.deep_view()),
        },
{
    let ghost tv = toks.deep_view();
    if toks.len() == 0 {
        return None;
    }
    match parse_usize(toks[0].as_str()) {
        Some(degree) if degree == toks.len() - 1 => {},
        _ => {
            return None;
        },
    }
    let mut face: Vec<usize> = Vec::new();
    let mut k: usize = 1;
    while k < toks.len()
        invariant
            tv == toks.deep_view(),
            1 <= k <= toks.len(),
            face.len() == k - 1,
            forall|j: int| 1 <= j < k ==> is_index(#[trigger] tv[j]),
            forall|j: int| 0 <= j < k - 1 ==> face@[j] == unsigned_value(tv[j + 1]) as usize,
        decreases toks.len() - k,
    {
        match parse_usize(toks[k].as_str()) {
            Some(index) => {
                face.push(index);
            },
            None => {
                assert(!is_index(tv[k as int]));
                return None;
            },
        }
        k += 1;
    }
    assert(face@ =~= face_of(tv));
    Some(face)
}

/// A reader of the header-counted format, fed one line at a time.
#[derive(Debug)]
pub struct Parser {
    state: State,
    vert_count: usize,
    face_count: usize,
    verts: Vec<Vertex>,
    faces: Vec<Vec<usize>>,
}

impl View for Parser {
    type V = Machine;

    closed spec fn view(&self) -> Machine {
        Machine {
            state: self.state,
            vert_count: self.vert_count as nat,
            face_count: self.face_count as nat,
            verts: self.verts.deep_view(),
            faces: self.faces.deep_view(),
        }
    }
}

impl Parser {
    /// A reader that has read nothing.
    pub fn new() -> (p: Parser)
        ensures
            p@ == start(),
    {
        let p = Parser {
            state: State::Header,
            vert_count: 0,
            face_count: 0,
            verts: Vec::new(),
            faces: Vec::new(),
        };
        assert(p.verts.deep_view() =~= Seq::empty());
        assert(p.faces.deep_view() =~= Seq::empty());
        p
    }

    /// The state reached.
    pub fn state(&self) -> (s: State)
        ensures
            s == self@.state,
    {
        self.state
    }

    /// Takes the next line. A line that is refused leaves the reader as it
    /// was.
    pub fn feed(&mut self, line: &str) -> (r: Result<(), Fault>)
        ensures
            match step(old(self)@, tokens(line@)) {
                Ok(next) => r is Ok && final(self)@ == next,
                Err(fault) => r == Err::<(), Fault>(fault) && final(self)@ == old(self)@,
            },
    {
        let toks = split_tokens(line);
        if is_comment_line(&toks) {
            return Ok(());
        }
        match self.state {
            State::Done => Err(Fault::Trailing),
            State::Header | State::Counts => {
                if matches!(self.state, State::Header) && is_format_tag_line(&toks) {
                    self.state = State::Counts;
                    return Ok(());
                }
                match read_counts(&toks) {
                    Some((vert_count, face_count)) => {
                        self.vert_count = vert_count;
                        self.face_count = face_count;
                        self.state = State::Verts;
                        Ok(())
                    },
                    None => Err(Fault::Malformed),
                }
            },
            State::Verts => match read_vertex(&toks) {
                Some(v) => {
                    let ghost before = self.verts.deep_view();
                    self.verts.push(v);
                    assert(self.verts.deep_view() =~= before.push(v@));
                    if self.verts.len() == self.vert_count {
                        self.state = State::Faces;
                    }
                    Ok(())
                },
                None => Err(Fault::Malformed),
            },
            State::Faces => match read_face(&toks) {
                Some(face) => {
                    let ghost before = self.faces.deep_view();
                    assert(face.deep_view() =~= face@);
                    self.faces.push(face);
                    assert(self.faces.deep_view() =~= before.push(face@));
                    if self.faces.len() == self.face_count {
                        self.state = State::Done;
                    }
                    Ok(())
                },
                None => Err(Fault::Malformed),
            },
        }
    }

    /// Ends the text: the vertices and faces read, where they are as many
    /// as were declared.
    pub fn finish(self) -> (r: Result<(Vec<Vertex>, Vec<Vec<usize>>), ParseError>)
        ensures
            match finish(self@) {
                Ok((verts, faces)) => r matches Ok((v, f)) && v.deep_view() == verts
                    && f.deep_view() == faces,
                Err(e) => r == Err::<(Vec<Vertex>, Vec<Vec<usize>>), ParseError>(e),
            },
    {
        if self.verts.len() == self.vert_count && self.faces.len() == self.face_count {
            Ok((self.verts, self.faces))
        } else {
            Err(ParseError::CountMismatch)
        }
    }
}

/// Reads a mesh in the header-counted format from the lines of a text.
pub fn parse(lines: &[String]) -> (r: Result<(Vec<Vertex>, Vec<Vec<usize>>), ParseError>)
    ensures
        match parse_spec(lines.deep_view()) {
            Ok((verts, faces)) => r matches Ok((v, f)) && v.deep_view() == verts && f.deep_view()
                == faces,
            Err(e) => r == Err::<(Vec<Vertex>, Vec<Vec<usize>>), ParseError>(e),
        },
{
    let ghost text = lines.deep_view();
    let mut parser = Parser::new();
    let mut i: usize = 0;
    while i < lines.len()
        invariant
            text == lines.deep_view(),
            i <= lines.len(),
            after(text, i as nat) == Ok::<Machine, ParseError>(parser@),
        decreases lines.len() - i,
    {
        match parser.feed(lines[i].as_str()) {
            Ok(()) => {},
            Err(fault) => {
                proof {
                    lemma_error_is_final(text, (i + 1) as nat, text.len());
                }
                return Err(
                    match fault {
                        Fault::Malformed => ParseError::Malformed { line: i },
                        Fault::Trailing => ParseError::Trailing { line: i },
                    },
                );
            },
        }
        i += 1;
    }
    parser.finish()
}

/// The token that opens a face line.
pub open spec fn face_tag() -> Seq<char> {
    seq!['f']
}

/// The reference to the vertex with the index `index`: the index counted
/// from one, with `//` behind it.
pub open spec fn face_ref(index: usize) -> Seq<char> {
    decimal_text((index + 1) as nat) + seq!['/', '/']
}

/// The number that stands in a face reference.
pub open spec fn face_ref_number(reference: Seq<char>) -> nat {
    decimal_value(reference.take(reference.len() - 2))
}

/// The references to the vertices of `face`, in order, with a blank behind
/// each.
pub open spec fn face_refs(face: Seq<usize>) -> Seq<char>
    decreases face.len(),
{
    if face.len() == 0 {
        Seq::empty()
    } else {
        face_refs(face.drop_last()) + face_ref(face.last()) + seq![' ']
    }
}

/// The face line of `face`: the tag, a blank and the references.
pub open spec fn face_line(face: Seq<usize>) -> Seq<char> {
    face_tag() + seq![' '] + face_refs(face)
}

/// The lines that write a mesh in the tagged format: a line for each vertex,
/// then a line for each face, each in the order given.
pub open spec fn obj_lines(verts: Seq<Seq<Seq<char>>>, faces: Seq<Seq<usize>>) -> Seq<Seq<char>> {
    verts.map_values(|v: Seq<Seq<char>>| vertex_line(v)) + faces.map_values(
        |f: Seq<usize>| face_line(f),
    )
}

/// The line that writes `face`.
fn face_line_of(face: &Vec<usize>) -> (s: String)
    ensures
        s@ == face_line(face@),
{
    proof {
        reveal_strlit("f ");
        reveal_strlit("// ");
    }
    let mut s = String::from_str("f ");
    let mut k: usize = 0;
    assert(face@.take(0) =~= Seq::empty());
    assert(s@ =~= face_line(face@.take(0)));
    while k < face.len()
        invariant
            k <= face.len(),
            s@ == face_line(face@.take(k as int)),
            "// "@ == seq!['/', '/', ' '],
        decreases face.len() - k,
    {
        let ghost done = face@.take(k as int);
        let ghost next = face@.take(k + 1);
        assert(next.drop_last() =~= done);
        assert(next.last() == face@[k as int]);
        push_decimal(&mut s, face[k] as u128 + 1);
        s.append("// ");
        assert(s@ =~= face_line(next));
        k += 1;
    }
    assert(face@.take(k as int) =~= face@);
    s
}

/// Writes a mesh in the tagged format: a line for each vertex, then a line
/// for each face with its vertex indices counted from one.
pub fn to_obj(verts: Vec<Vertex>, faces: Vec<Vec<usize>>) -> (out: Vec<String>)
    ensures
        out.deep_view() == obj_lines(verts.deep_view(), faces.deep_view()),
{
    let ghost vertex_lines = verts.deep_view().map_values(|v: Seq<Seq<char>>| vertex_line(v));
    let ghost face_lines = faces.deep_view().map_values(|f: Seq<usize>| face_line(f));
    let mut out: Vec<String> = Vec::new();
    let mut i: usize = 0;
    while i < verts.len()
        invariant
            i <= verts.len(),
            out.len() == i,
            forall|k: int| 0 <= k < i ==> (#[trigger] out@[k])@ == vertex_line(verts@[k]@),
        decreases verts.len() - i,
    {
        out.push(verts[i].line());
        i += 1;
    }
    let mut j: usize = 0;
    while j < faces.len()
        invariant
            j <= faces.len(),
            out.len() == verts.len() + j,
            forall|k: int| 0 <= k < verts.len() ==> (#[trigger] out@[k])@ == vertex_line(verts@[k]@),
            forall|k: int|
                0 <= k < j ==> (#[trigger] out@[verts.len() + k])@ == face_line(faces@[k]@),
        decreases faces.len() - j,
    {
        out.push(face_line_of(&faces[j]));
        j += 1;
    }
    proof {
        assert forall|k: int| 0 <= k < faces.len() implies #[trigger] face_lines[k] == face_line(
            faces@[k]@,
        ) by {
            assert(faces@[k].deep_view() =~= faces@[k]@);
        }
        let lines = vertex_lines + face_lines;
        assert(out.deep_view().len() == lines.len());
        assert forall|k: int| 0 <= k < lines.len() implies out.deep_view()[k] == lines[k] by {
            if k < verts.len() {
                assert(out@[k]@ == vertex_line(verts@[k]@));
                assert(lines[k] == vertex_lines[k]);
            } else {
                assert(out@[verts.len() + (k - verts.len())]@ == face_line(
                    faces@[k - verts.len()]@,
                ));
                assert(lines[k] == face_lines[k - verts.len()]);
            }
        }
        assert(out.deep_view() =~= lines);
    }
    out
}

} // verus!
