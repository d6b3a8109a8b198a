//! What holds of every text: that the reader passes its states in order,
//! that converting a mesh loses nothing of it, and that rewriting vertex
//! lines leaves every other line where and as it was.

use crate::ledger::{
    error_of, fill_spec, filled, FillError, first_error, first_not_finite, is_vertex_line,
    lemma_pending_are_vertices, lemma_pending_count_prefix, slot_of, slots_of, vertices_of,
};
use crate::number::{decimal_text, lemma_decimal_text_value};
use crate::off::{
    after, face_line, face_ref, face_ref_number, face_refs, face_tag, obj_lines, parse_spec, step,
    Machine, State,
};
use crate::text::{
    ends_open, is_space, is_word, lemma_tokens_after_space, lemma_tokens_after_word,
    lemma_tokens_concat, lemma_tokens_of_word, lemma_word_len_bound, lemma_word_len_chars, tokens,
    word_len,
};
use crate::vertex::{
    all_coords, is_coords, is_finite_coords, lemma_vertex_line_tokens, vertex_line, vertex_tag,
};
use vstd::prelude::*;

verus! {

/// Every token of a text is a word: it is not empty and holds no white
/// space.
pub proof fn lemma_tokens_are_words(s: Seq<char>)
    ensures
        forall|i: int| 0 <= i < tokens(s).len() ==> is_word(#[trigger] tokens(s)[i]),
    decreases s.len(),
{
    if s.len() == 0 {
        assert(tokens(s).len() == 0);
    } else if is_space(s[0]) {
        lemma_tokens_are_words(s.drop_first());
        assert(tokens(s) == tokens(s.drop_first()));
    } else {
        lemma_word_len_bound(s);
        lemma_word_len_chars(s);
        let n = word_len(s) as int;
        lemma_tokens_are_words(s.skip(n));
        assert(is_word(s.take(n)));
        assert forall|i: int| 0 <= i < tokens(s).len() implies is_word(
            #[trigger] tokens(s)[i],
        ) by {
            assert(tokens(s) == seq![s.take(n)] + tokens(s.skip(n)));
            if i > 0 {
                assert(tokens(s)[i] == tokens(s.skip(n))[i - 1]);
            } else {
                assert(tokens(s)[0] == s.take(n));
            }
        }
    }
}

/// The place of a state in the order in which the states are passed.
pub open spec fn rank(state: State) -> nat {
    match state {
        State::Header => 0,
        State::Counts => 1,
        State::Verts => 2,
        State::Faces => 3,
        State::Done => 4,
    }
}

/// The states are passed in their order: the state after a line is the
/// state before it or a later one, and the reader forgets no vertex and no
/// face that it has read.
pub proof fn lemma_states_move_forward(m: Machine, toks: Seq<Seq<char>>)
    requires
        step(m, toks) is Ok,
    ensures
        rank(m.state) <= rank(step(m, toks)->Ok_0.state),
        m.verts.is_prefix_of(step(m, toks)->Ok_0.verts),
        m.faces.is_prefix_of(step(m, toks)->Ok_0.faces),
{
}

/// What the state says of the vertices and faces read: before the counts
/// nothing is read or declared; while vertices are read no face is, and
/// fewer vertices than declared are there unless none was declared; faces
/// are read only once all the vertices are there, and fewer faces than
/// declared are there unless none was declared; at the end all that was
/// declared is there.
pub open spec fn consistent(m: Machine) -> bool {
    match m.state {
        State::Header | State::Counts => {
            &&& m.vert_count == 0
            &&& m.face_count == 0
            &&& m.verts.len() == 0
            &&& m.faces.len() == 0
        },
        State::Verts => {
            &&& m.faces.len() == 0
            &&& m.vert_count == 0 || m.verts.len() < m.vert_count
        },
        State::Faces => {
            &&& 0 < m.vert_count == m.verts.len()
            &&& m.face_count == 0 || m.faces.len() < m.face_count
        },
        State::Done => {
            &&& 0 < m.vert_count == m.verts.len()
            &&& 0 < m.face_count == m.faces.len()
        },
    }
}

/// After any lines that it has taken, the reader is consistent.
pub proof fn lemma_reader_is_consistent(lines: Seq<Seq<char>>, n: nat)
    requires
        after(lines, n) is Ok,
    ensures
        consistent(after(lines, n)->Ok_0),
    decreases n,
{
    if n > 0 {
        lemma_reader_is_consistent(lines, (n - 1) as nat);
    }
}

/// Every vertex that the reader holds is three texts of numbers.
pub proof fn lemma_read_vertices_are_numbers(lines: Seq<Seq<char>>, n: nat)
    requires
        after(lines, n) is Ok,
    ensures
        all_coords(after(lines, n)->Ok_0.verts),
    decreases n,
{
    if n > 0 {
        lemma_read_vertices_are_numbers(lines, (n - 1) as nat);
    }
}

/// A face reference is a word, and the number in it is the index counted
/// from one.
pub proof fn lemma_face_ref(index: usize)
    ensures
        is_word(face_ref(index)),
        face_ref_number(face_ref(index)) == index + 1,
{
    let n = (index + 1) as nat;
    let r = face_ref(index);
    lemma_decimal_text_value(n);
    assert(r.take(r.len() - 2) =~= decimal_text(n));
    assert forall|i: int| 0 <= i < r.len() implies !is_space(#[trigger] r[i]) by {
        if i < r.len() - 2 {
            assert(r[i] == decimal_text(n)[i]);
        }
    }
}

/// Splitting the references of a face gives one reference for each vertex
/// of the face, in order.
pub proof fn lemma_face_refs_tokens(face: Seq<usize>)
    ensures
        ends_open(face_refs(face)),
        tokens(face_refs(face)) == face.map_values(|index: usize| face_ref(index)),
    decreases face.len(),
{
    let refs = face.map_values(|index: usize| face_ref(index));
    if face.len() == 0 {
        assert(tokens(face_refs(face)) =~= refs);
    } else {
        let init = face.drop_last();
        let last = face_ref(face.last());
        lemma_face_refs_tokens(init);
        lemma_face_ref(face.last());
        lemma_tokens_of_word(last);
        assert(face_refs(face) =~= face_refs(init) + (last + seq![' ']));
        lemma_tokens_concat(face_refs(init), last + seq![' ']);
        assert(init.map_values(|index: usize| face_ref(index)) + seq![last] =~= refs);
    }
}

/// Splitting a face line gives the tag, then one reference for each vertex
/// of the face, in order.
pub proof fn lemma_face_line_tokens(face: Seq<usize>)
    ensures
        tokens(face_line(face)) == seq![face_tag()] + face.map_values(
            |index: usize| face_ref(index),
        ),
{
    lemma_face_refs_tokens(face);
    let rest = seq![' '] + face_refs(face);
    lemma_tokens_after_space(' ', face_refs(face));
    lemma_tokens_after_word(face_tag(), rest);
    assert(face_line(face) =~= face_tag() + rest);
}

/// The first `k` lines of a converted mesh scan without error, and the
/// vertices on them are the first vertices of the mesh.
proof fn lemma_converted_mesh_scans_upto(
    verts: Seq<Seq<Seq<char>>>,
    faces: Seq<Seq<usize>>,
    k: int,
)
    requires
        all_coords(verts),
        0 <= k <= verts.len() + faces.len(),
    ensures
        ({
            let out = obj_lines(verts, faces);
            &&& first_error(out.take(k)) is None
            &&& vertices_of(out.take(k)) == if k <= verts.len() {
                verts.take(k)
            } else {
                verts
            }
        }),
    decreases k,
{
    let out = obj_lines(verts, faces);
    if k == 0 {
        assert(out.take(0) =~= Seq::empty());
        assert(vertices_of(out.take(0)) =~= verts.take(0));
    } else {
        let i = k - 1;
        lemma_converted_mesh_scans_upto(verts, faces, i);
        assert(out.take(k).drop_last() =~= out.take(i));
        assert(out.take(k).last() == out[i]);
        if i < verts.len() {
            assert(out[i] == vertex_line(verts[i]));
            assert(is_coords(verts[i]));
            lemma_vertex_line_tokens(verts[i]);
            assert(tokens(out[i]).skip(1) =~= verts[i]);
            assert(verts.take(i).push(verts[i]) =~= verts.take(k));
        } else {
            assert(out[i] == face_line(faces[i - verts.len()]));
            lemma_face_line_tokens(faces[i - verts.len()]);
            assert(tokens(out[i])[0] == face_tag());
            assert(face_tag()[0] != vertex_tag()[0]);
            assert(verts.take(verts.len() as int) =~= verts);
        }
    }
}

/// A converted mesh is a text that can be rewritten: no line of it has an
/// error, and the vertices on its vertex lines are those of the mesh, in
/// their order.
pub proof fn lemma_converted_mesh_scans(verts: Seq<Seq<Seq<char>>>, faces: Seq<Seq<usize>>)
    requires
        all_coords(verts),
    ensures
        first_error(obj_lines(verts, faces)) is None,
        vertices_of(obj_lines(verts, faces)) == verts,
{
    let out = obj_lines(verts, faces);
    lemma_converted_mesh_scans_upto(verts, faces, out.len() as int);
    assert(out.take(out.len() as int) =~= out);
    assert(verts.take(verts.len() as int) =~= verts);
}

/// Converting a mesh that was read keeps its vertices and its faces: the
/// lines written are one for each vertex and then one for each face; a
/// vertex line holds the tag and the three coordinates as they were read,
/// so that scanning the lines gives the vertices again; a face line holds
/// the tag and, for each vertex of the face in order, a reference with the
/// index of the vertex counted from one.
pub proof fn lemma_conversion_keeps_mesh(lines: Seq<Seq<char>>)
    requires
        parse_spec(lines) is Ok,
    ensures
        ({
            let (verts, faces) = parse_spec(lines)->Ok_0;
            let out = obj_lines(verts, faces);
            &&& out.len() == verts.len() + faces.len()
            &&& vertices_of(out) == verts
            &&& forall|i: int|
                0 <= i < verts.len() ==> tokens(#[trigger] out[i]) == seq![vertex_tag()] + verts[i]
            &&& forall|j: int|
                0 <= j < faces.len() ==> {
                    let toks = tokens(#[trigger] out[verts.len() + j]);
                    &&& toks.len() == 1 + faces[j].len()
                    &&& toks[0] == face_tag()
                    &&& forall|k: int|
                        0 <= k < faces[j].len() ==> face_ref_number(#[trigger] toks[k + 1])
                            == faces[j][k] + 1
                }
        }),
{
    let (verts, faces) = parse_spec(lines)->Ok_0;
    let out = obj_lines(verts, faces);
    lemma_read_vertices_are_numbers(lines, lines.len());
    lemma_converted_mesh_scans(verts, faces);
    assert forall|i: int| 0 <= i < verts.len() implies tokens(#[trigger] out[i]) == seq![
        vertex_tag(),
    ] + verts[i] by {
        assert(out[i] == vertex_line(verts[i]));
        lemma_vertex_line_tokens(verts[i]);
    }
    assert forall|j: int| 0 <= j < faces.len() implies {
        let toks = tokens(#[trigger] out[verts.len() + j]);
        &&& toks.len() == 1 + faces[j].len()
        &&& toks[0] == face_tag()
        &&& forall|k: int|
            0 <= k < faces[j].len() ==> face_ref_number(#[trigger] toks[k + 1]) == faces[j][k] + 1
    } by {
        let toks = tokens(out[verts.len() + j]);
        assert(out[verts.len() + j] == face_line(faces[j]));
        lemma_face_line_tokens(faces[j]);
        assert forall|k: int| 0 <= k < faces[j].len() implies face_ref_number(
            #[trigger] toks[k + 1],
        ) == faces[j][k] + 1 by {
            assert(toks[k + 1] == face_ref(faces[j][k]));
            lemma_face_ref(faces[j][k]);
        }
    }
}

/// Rewriting vertex lines keeps the lines of the text: the rewritten text
/// has as many lines as the text; a line that is no vertex line stands at
/// its place unchanged; and a vertex line that has `k` vertex lines before
/// it is replaced by the line of the vertex `verts[k]`.
pub proof fn lemma_rewrite_keeps_lines(lines: Seq<Seq<char>>, verts: Seq<Seq<Seq<char>>>)
    requires
        fill_spec(slots_of(lines), verts) is Ok,
    ensures
        ({
            let out = fill_spec(slots_of(lines), verts)->Ok_0;
            &&& out.len() == lines.len()
            &&& forall|i: int|
                0 <= i < lines.len() && !is_vertex_line(tokens(lines[i])) ==> #[trigger] out[i]
                    == lines[i]
            &&& forall|i: int|
                0 <= i < lines.len() && is_vertex_line(tokens(lines[i])) ==> #[trigger] out[i]
                    == vertex_line(verts[vertices_of(lines.take(i)).len() as int])
        }),
{
    let slots = slots_of(lines);
    let out = filled(slots, verts);
    assert forall|i: int| 0 <= i < lines.len() && is_vertex_line(tokens(lines[i])) implies
        #[trigger] out[i] == vertex_line(verts[vertices_of(lines.take(i)).len() as int]) by {
        lemma_pending_are_vertices(lines.take(i));
        assert(slots.take(i) =~= slots_of(lines.take(i)));
    }
}

/// Where none of some vertices is found not to be finite, each of them is
/// three numbers in decimal notation.
pub proof fn lemma_all_finite(verts: Seq<Seq<Seq<char>>>)
    requires
        first_not_finite(verts) is None,
    ensures
        forall|i: int| 0 <= i < verts.len() ==> is_finite_coords(#[trigger] verts[i]),
        all_coords(verts),
    decreases verts.len(),
{
    if verts.len() > 0 {
        lemma_all_finite(verts.drop_last());
        assert forall|i: int| 0 <= i < verts.len() implies is_finite_coords(
            #[trigger] verts[i],
        ) by {
            if i < verts.len() - 1 {
                assert(verts[i] == verts.drop_last()[i]);
            }
        }
    }
}

/// Where no line of a text has an error, none of its lines has one.
pub proof fn lemma_no_error_on_any_line(lines: Seq<Seq<char>>, i: int)
    requires
        first_error(lines) is None,
        0 <= i < lines.len(),
    ensures
        error_of(tokens(lines[i]), i as nat) is None,
    decreases lines.len(),
{
    if i < lines.len() - 1 {
        lemma_no_error_on_any_line(lines.drop_last(), i);
    }
}

/// The first `k` lines of a rewritten text scan as the first `k` lines of
/// the text do, with the new vertices in place of the old.
proof fn lemma_rewrite_scans_alike_upto(
    lines: Seq<Seq<char>>,
    verts: Seq<Seq<Seq<char>>>,
    k: int,
)
    requires
        first_error(lines) is None,
        verts.len() == vertices_of(lines).len(),
        all_coords(verts),
        0 <= k <= lines.len(),
    ensures
        ({
            let out = filled(slots_of(lines), verts);
            &&& first_error(out.take(k)) is None
            &&& slots_of(out.take(k)) == slots_of(lines.take(k))
            &&& vertices_of(out.take(k)) == verts.take(vertices_of(lines.take(k)).len() as int)
            &&& vertices_of(lines.take(k)).len() <= verts.len()
        }),
    decreases k,
{
    let slots = slots_of(lines);
    let out = filled(slots, verts);
    lemma_pending_are_vertices(lines);
    lemma_pending_are_vertices(lines.take(k));
    assert(slots.take(k) =~= slots_of(lines.take(k)));
    lemma_pending_count_prefix(slots, k);
    if k == 0 {
        assert(out.take(0) =~= Seq::empty());
        assert(lines.take(0) =~= Seq::empty());
        assert(slots_of(out.take(0)) =~= slots_of(lines.take(0)));
        assert(vertices_of(out.take(0)) =~= verts.take(0));
    } else {
        let i = k - 1;
        lemma_rewrite_scans_alike_upto(lines, verts, i);
        lemma_pending_are_vertices(lines.take(i));
        assert(slots.take(i) =~= slots_of(lines.take(i)));
        lemma_no_error_on_any_line(lines, i);
        assert(out.take(k).drop_last() =~= out.take(i));
        assert(lines.take(k).drop_last() =~= lines.take(i));
        assert(out.take(k).last() == out[i]);
        assert(lines.take(k).last() == lines[i]);
        let seen = vertices_of(lines.take(i)).len() as int;
        if is_vertex_line(tokens(lines[i])) {
            assert(slots[i] is None);
            assert(out[i] == vertex_line(verts[seen]));
            assert(is_coords(verts[seen]));
            lemma_vertex_line_tokens(verts[seen]);
            assert(tokens(out[i]).skip(1) =~= verts[seen]);
            assert(is_vertex_line(tokens(out[i])));
            assert(verts.take(seen).push(verts[seen]) =~= verts.take(seen + 1));
        } else {
            assert(out[i] == lines[i]);
        }
        assert(slots_of(out.take(k)) =~= slots_of(out.take(i)).push(slot_of(out[i])));
        assert(slots_of(lines.take(k)) =~= slots_of(lines.take(i)).push(slot_of(lines[i])));
    }
}

/// A rewritten text scans as the text did: no line of it has an error, its
/// vertex lines stand where those of the text stood and hold the new
/// vertices, and its other lines are those of the text. Rewriting it once
/// more with the same vertices changes nothing.
pub proof fn lemma_rewrite_scans_alike(lines: Seq<Seq<char>>, verts: Seq<Seq<Seq<char>>>)
    requires
        first_error(lines) is None,
        fill_spec(slots_of(lines), verts) is Ok,
    ensures
        ({
            let out = fill_spec(slots_of(lines), verts)->Ok_0;
            &&& first_error(out) is None
            &&& slots_of(out) == slots_of(lines)
            &&& vertices_of(out) == verts
            &&& fill_spec(slots_of(out), verts) == Ok::<Seq<Seq<char>>, FillError>(out)
        }),
{
    let out = filled(slots_of(lines), verts);
    lemma_pending_are_vertices(lines);
    lemma_all_finite(verts);
    lemma_rewrite_scans_alike_upto(lines, verts, lines.len() as int);
    assert(out.take(lines.len() as int) =~= out);
    assert(lines.take(lines.len() as int) =~= lines);
    assert(verts.take(verts.len() as int) =~= verts);
}

} // verus!
