//! Welding: face corners that were written as the same token share one
//! vertex.
//!
//! The table of welded vertices is kept in insertion order, and a corner's
//! table position is what goes into the index stream. The table is never
//! reset, so welding is global to the text that is being read.

use crate::model::error::ErrorKind;
use crate::model::face::{corner, CornerView, Face, FaceIndices};
use crate::model::geometry::{numeric, views, Vector2, Vector3, VertexRaw, VertexView};
use crate::model::text::same_bytes;
use crate::sequence::{
    first_index, lemma_first_index, lemma_first_index_is, lemma_first_index_push_absent,
    lemma_first_index_push_present,
};
use vstd::prelude::*;

verus! {

/// The attributes declared so far, each kind in the order of declaration.
pub struct Attributes {
    pub positions: Seq<Seq<Seq<u8>>>,
    pub normals: Seq<Seq<Seq<u8>>>,
    pub uvs: Seq<Seq<Seq<u8>>>,
}

impl Attributes {
    /// Whether every attribute is made of numeric literals: three for a
    /// position or a normal, two for a texture coordinate.
    pub open spec fn numeric(self) -> bool {
        &&& forall|i: int| 0 <= i < self.positions.len() ==> numeric(#[trigger] self.positions[i], 3)
        &&& forall|i: int| 0 <= i < self.normals.len() ==> numeric(#[trigger] self.normals[i], 3)
        &&& forall|i: int| 0 <= i < self.uvs.len() ==> numeric(#[trigger] self.uvs[i], 2)
    }
}

/// What welding has produced so far: the table, as the tokens in insertion
/// order and the vertex of each, and the index stream.
pub struct Welded {
    pub tokens: Seq<Seq<u8>>,
    pub vertices: Seq<VertexView>,
    pub indices: Seq<u32>,
}

/// The tokens of a table of welded vertices.
pub open spec fn tokens_of(table: Seq<(Vec<u8>, VertexRaw)>) -> Seq<Seq<u8>> {
    Seq::new(table.len(), |i: int| table[i].0@)
}

/// The vertices of a table of welded vertices.
pub open spec fn vertices_of(table: Seq<(Vec<u8>, VertexRaw)>) -> Seq<VertexView> {
    Seq::new(table.len(), |i: int| table[i].1@)
}

/// The welding state that a table and an index stream stand for.
pub open spec fn welded_of(table: Seq<(Vec<u8>, VertexRaw)>, indices: Seq<u32>) -> Welded {
    Welded { tokens: tokens_of(table), vertices: vertices_of(table), indices }
}

/// The attributes that three attribute lists stand for.
pub open spec fn attributes_of(
    positions: Seq<Vector3>,
    normals: Seq<Vector3>,
    uvs: Seq<Vector2>,
) -> Attributes {
    Attributes { positions: views(positions), normals: views(normals), uvs: views(uvs) }
}

/// Welds one corner.
///
/// A corner whose token is in the table contributes the token's position
/// to the index stream and nothing else. A corner with a new token is
/// resolved against the attributes, entered at the end of the table, and
/// contributes that new position.
pub open spec fn weld(w: Welded, c: CornerView, a: Attributes) -> Result<Welded, ErrorKind> {
    let k = first_index(w.tokens, c.id);
    if k < w.tokens.len() {
        Ok(Welded { indices: w.indices.push(k as u32), ..w })
    } else if FaceIndices::resolvable(c, a.positions, a.normals, a.uvs) {
        Ok(
            Welded {
                tokens: w.tokens.push(c.id),
                vertices: w.vertices.push(FaceIndices::resolved(c, a.positions, a.normals, a.uvs)),
                indices: w.indices.push(w.tokens.len() as u32),
            },
        )
    } else {
        Err(ErrorKind::IndexOutOfRange)
    }
}

/// Welds corners one after the other, stopping at the first that fails.
pub open spec fn weld_all(w: Welded, cs: Seq<CornerView>, a: Attributes) -> Result<
    Welded,
    ErrorKind,
>
    decreases cs.len(),
{
    if cs.len() == 0 {
        Ok(w)
    } else {
        match weld_all(w, cs.drop_last(), a) {
            Ok(v) => weld(v, cs.last(), a),
            Err(k) => Err(k),
        }
    }
}

/// The corners that a face sends through the welder: a triangle's three
/// corners as they are, a quad's as the two triangles `0 1 2` and `0 2 3`.
pub open spec fn fan(cs: Seq<CornerView>) -> Seq<CornerView> {
    if cs.len() == 4 {
        seq![cs[0], cs[1], cs[2], cs[0], cs[2], cs[3]]
    } else {
        cs
    }
}

/// Welds a face.
pub open spec fn weld_face(w: Welded, cs: Seq<CornerView>, a: Attributes) -> Result<
    Welded,
    ErrorKind,
> {
    weld_all(w, fan(cs), a)
}

/// Finds the table position of a token.
pub fn find_index_of_face(verticies: &Vec<(Vec<u8>, VertexRaw)>, face_id: &[u8]) -> (r: Option<
    usize,
>)
    ensures
        match r {
            Some(i) => i < verticies@.len() && i == first_index(tokens_of(verticies@), face_id@),
            None => first_index(tokens_of(verticies@), face_id@) == verticies@.len(),
        },
{
    let ghost tokens = tokens_of(verticies@);
    let mut i: usize = 0;
    while i < verticies.len()
        invariant
            i <= verticies@.len(),
            tokens == tokens_of(verticies@),
            forall|k: int| 0 <= k < i ==> tokens[k] != face_id@,
        decreases verticies@.len() - i,
    {
        if same_bytes(verticies[i].0.as_slice(), face_id) {
            proof {
                assert(tokens[i as int] == face_id@);
                lemma_first_index_is(tokens, face_id@, i as int);
            }
            return Some(i);
        }
        assert(tokens[i as int] != face_id@);
        i += 1;
    }
    proof {
        lemma_first_index_is(tokens, face_id@, i as int);
    }
    None
}

/// Welds one corner into the table and the index stream; see [`weld`].
///
/// When the corner cannot be resolved, neither the table nor the index
/// stream changes.
pub fn add_verticies_and_indices(
    face: &FaceIndices,
    verticies: &mut Vec<(Vec<u8>, VertexRaw)>,
    indices: &mut Vec<u32>,
    positions: &Vec<Vector3>,
    normals: &Vec<Vector3>,
    uvs: &Vec<Vector2>,
) -> (r: Result<(), ErrorKind>)
    requires
        old(verticies)@.len() <= u32::MAX,
    ensures
        match weld(
            welded_of(old(verticies)@, old(indices)@),
            face@,
            attributes_of(positions@, normals@, uvs@),
        ) {
            Ok(w) => r is Ok && welded_of(final(verticies)@, final(indices)@) == w,
            Err(k) => r matches Err(e) && e == k && final(verticies)@ == old(verticies)@
                && final(indices)@ == old(indices)@,
        },
        old(verticies)@ == final(verticies)@.take(old(verticies)@.len() as int),
        old(indices)@ == final(indices)@.take(old(indices)@.len() as int),
        old(verticies)@.len() <= final(verticies)@.len() <= old(verticies)@.len() + 1,
        old(indices)@.len() <= final(indices)@.len() <= old(indices)@.len() + 1,
{
    let ghost before = welded_of(verticies@, indices@);
    match find_index_of_face(verticies, face.id.as_slice()) {
        Some(index) => {
            indices.push(index as u32);
            proof {
                assert(old(indices)@ =~= indices@.take(old(indices)@.len() as int));
                assert(old(verticies)@ =~= verticies@.take(old(verticies)@.len() as int));
            }
            Ok(())
        },
        None => {
            match face.to_vertex_raw(positions, normals, uvs) {
                Ok(vertex) => {
                    let index = verticies.len();
                    let id = face.clone().id;
                    verticies.push((id, vertex));
                    indices.push(index as u32);
                    proof {
                        assert(tokens_of(verticies@) =~= before.tokens.push(face@.id));
                        assert(vertices_of(verticies@) =~= before.vertices.push(vertex@));
                        assert(old(indices)@ =~= indices@.take(old(indices)@.len() as int));
                        assert(old(verticies)@ =~= verticies@.take(old(verticies)@.len() as int));
                    }
                    Ok(())
                },
                Err(e) => {
                    proof {
                        assert(old(indices)@ =~= indices@.take(old(indices)@.len() as int));
                        assert(old(verticies)@ =~= verticies@.take(old(verticies)@.len() as int));
                    }
                    Err(e)
                },
            }
        },
    }
}

/// The corners that a list of borrowed corners stands for.
pub open spec fn corner_views(corners: Seq<&FaceIndices>) -> Seq<CornerView> {
    Seq::new(corners.len(), |i: int| corners[i]@)
}

/// What one weld does to the table: it keeps every entry where it is, adds
/// at most one, and afterwards holds the corner's token.
pub proof fn lemma_weld_table(w: Welded, c: CornerView, a: Attributes)
    requires
        weld(w, c, a) is Ok,
    ensures
        ({
            let v = weld(w, c, a)->Ok_0;
            &&& v.indices.len() == w.indices.len() + 1
            &&& v.indices.take(w.indices.len() as int) == w.indices
            &&& w.tokens.len() <= v.tokens.len() <= w.tokens.len() + 1
            &&& v.tokens.take(w.tokens.len() as int) == w.tokens
            &&& v.vertices.len() - w.vertices.len() == v.tokens.len() - w.tokens.len()
            &&& v.vertices.take(w.vertices.len() as int) == w.vertices
            &&& first_index(v.tokens, c.id) < v.tokens.len()
            &&& first_index(w.tokens, c.id) < w.tokens.len() ==> v.tokens == w.tokens && v.vertices
                == w.vertices
            &&& forall|id: Seq<u8>|
                first_index(w.tokens, id) < w.tokens.len() ==> #[trigger] first_index(v.tokens, id)
                    == first_index(w.tokens, id)
        }),
{
    let v = weld(w, c, a)->Ok_0;
    let k = first_index(w.tokens, c.id);
    lemma_first_index(w.tokens, c.id);
    assert(v.indices.take(w.indices.len() as int) =~= w.indices);
    if k < w.tokens.len() {
        assert(v.tokens.take(w.tokens.len() as int) =~= w.tokens);
        assert(v.vertices.take(w.vertices.len() as int) =~= w.vertices);
    } else {
        assert(v.tokens.take(w.tokens.len() as int) =~= w.tokens);
        assert(v.vertices.take(w.vertices.len() as int) =~= w.vertices);
        lemma_first_index_push_absent(w.tokens, c.id, c.id);
        assert forall|id: Seq<u8>| first_index(w.tokens, id) < w.tokens.len() implies #[trigger] first_index(
            v.tokens,
            id,
        ) == first_index(w.tokens, id) by {
            lemma_first_index_push_present(w.tokens, c.id, id);
        }
    }
}

/// A failure among the first corners is the failure of all of them.
pub proof fn lemma_weld_all_error_persists(w: Welded, cs: Seq<CornerView>, a: Attributes, n: int)
    requires
        0 <= n <= cs.len(),
        weld_all(w, cs.take(n), a) is Err,
    ensures
        weld_all(w, cs, a) == weld_all(w, cs.take(n), a),
    decreases cs.len(),
{
    if n < cs.len() {
        assert(cs.drop_last().take(n) =~= cs.take(n));
        lemma_weld_all_error_persists(w, cs.drop_last(), a, n);
    } else {
        assert(cs.take(n) =~= cs);
    }
}

/// Welding one more corner after a run of corners.
pub proof fn lemma_weld_all_step(w: Welded, cs: Seq<CornerView>, a: Attributes, n: int)
    requires
        0 <= n < cs.len(),
    ensures
        weld_all(w, cs.take(n + 1), a) == (match weld_all(w, cs.take(n), a) {
            Ok(v) => weld(v, cs[n], a),
            Err(k) => Err(k),
        }),
{
    assert(cs.take(n + 1).drop_last() =~= cs.take(n));
    assert(cs.take(n + 1).last() == cs[n]);
}

/// Welds the corners in order; on failure, undoes what it did.
fn weld_corners(
    corners: &Vec<&FaceIndices>,
    verticies: &mut Vec<(Vec<u8>, VertexRaw)>,
    indices: &mut Vec<u32>,
    positions: &Vec<Vector3>,
    normals: &Vec<Vector3>,
    uvs: &Vec<Vector2>,
) -> (r: Result<(), ErrorKind>)
    requires
        forall|n: int|
            0 <= n < corners@.len() ==> (#[trigger] weld_all(
                welded_of(old(verticies)@, old(indices)@),
                corner_views(corners@).take(n),
                attributes_of(positions@, normals@, uvs@),
            ) matches Ok(v) ==> v.tokens.len() <= u32::MAX),
    ensures
        match weld_all(
            welded_of(old(verticies)@, old(indices)@),
            corner_views(corners@),
            attributes_of(positions@, normals@, uvs@),
        ) {
            Ok(w) => r is Ok && welded_of(final(verticies)@, final(indices)@) == w,
            Err(k) => r matches Err(e) && e == k && final(verticies)@ == old(verticies)@
                && final(indices)@ == old(indices)@,
        },
{
    let ghost w0 = welded_of(verticies@, indices@);
    let ghost cs = corner_views(corners@);
    let ghost a = attributes_of(positions@, normals@, uvs@);
    let table_len = verticies.len();
    let stream_len = indices.len();
    let mut i: usize = 0;
    proof {
        assert(cs.take(0) =~= Seq::<CornerView>::empty());
        assert(verticies@.take(table_len as int) =~= verticies@);
        assert(indices@.take(stream_len as int) =~= indices@);
    }
    while i < corners.len()
        invariant
            i <= corners@.len(),
            cs == corner_views(corners@),
            a == attributes_of(positions@, normals@, uvs@),
            w0 == welded_of(old(verticies)@, old(indices)@),
            table_len == old(verticies)@.len(),
            stream_len == old(indices)@.len(),
            table_len <= verticies@.len(),
            stream_len <= indices@.len(),
            verticies@.take(table_len as int) == old(verticies)@,
            indices@.take(stream_len as int) == old(indices)@,
            weld_all(w0, cs.take(i as int), a) == Ok::<Welded, ErrorKind>(
                welded_of(verticies@, indices@),
            ),
            forall|n: int|
                0 <= n < corners@.len() ==> (#[trigger] weld_all(w0, cs.take(n), a) matches Ok(v)
                    ==> v.tokens.len() <= u32::MAX),
        decreases corners@.len() - i,
    {
        let ghost before_table = verticies@;
        let ghost before_stream = indices@;
        proof {
            lemma_weld_all_step(w0, cs, a, i as int);
            assert(cs[i as int] == corners@[i as int]@);
            assert(weld_all(w0, cs.take(i as int), a) matches Ok(v) ==> v.tokens.len()
                <= u32::MAX);
        }
        match add_verticies_and_indices(corners[i], verticies, indices, positions, normals, uvs) {
            Ok(()) => {
                proof {
                    let grown_table = verticies@.take(before_table.len() as int);
                    let grown_stream = indices@.take(before_stream.len() as int);
                    assert forall|j: int| 0 <= j < table_len implies verticies@[j]
                        == before_table[j] by {
                        assert(grown_table[j] == verticies@[j]);
                    }
                    assert forall|j: int| 0 <= j < stream_len implies indices@[j]
                        == before_stream[j] by {
                        assert(grown_stream[j] == indices@[j]);
                    }
                    assert(verticies@.take(table_len as int) =~= before_table.take(
                        table_len as int,
                    ));
                    assert(indices@.take(stream_len as int) =~= before_stream.take(
                        stream_len as int,
                    ));
                }
            },
            Err(e) => {
                proof {
                    lemma_weld_all_error_persists(w0, cs, a, i + 1);
                }
                verticies.truncate(table_len);
                indices.truncate(stream_len);
                proof {
                    assert(verticies@ =~= old(verticies)@);
                    assert(indices@ =~= old(indices)@);
                }
                return Err(e);
            },
        }
        i += 1;
    }
    proof {
        assert(cs.take(i as int) =~= cs);
    }
    Ok(())
}

/// What a run of welds does to the table and the index stream: every entry
/// stays where it is, the table gains at most one entry and the index
/// stream exactly one entry per corner, and every corner's token is in the
/// table afterwards.
pub proof fn lemma_weld_all_table(w: Welded, cs: Seq<CornerView>, a: Attributes)
    requires
        weld_all(w, cs, a) is Ok,
    ensures
        ({
            let v = weld_all(w, cs, a)->Ok_0;
            &&& v.indices.len() == w.indices.len() + cs.len()
            &&& v.indices.take(w.indices.len() as int) == w.indices
            &&& w.tokens.len() <= v.tokens.len() <= w.tokens.len() + cs.len()
            &&& v.tokens.take(w.tokens.len() as int) == w.tokens
            &&& v.vertices.len() - w.vertices.len() == v.tokens.len() - w.tokens.len()
            &&& v.vertices.take(w.vertices.len() as int) == w.vertices
            &&& forall|i: int|
                0 <= i < cs.len() ==> first_index(v.tokens, #[trigger] cs[i].id) < v.tokens.len()
            &&& forall|id: Seq<u8>|
                first_index(w.tokens, id) < w.tokens.len() ==> #[trigger] first_index(v.tokens, id)
                    == first_index(w.tokens, id)
        }),
    decreases cs.len(),
{
    if cs.len() == 0 {
        assert(w.indices.take(w.indices.len() as int) =~= w.indices);
        assert(w.tokens.take(w.tokens.len() as int) =~= w.tokens);
        assert(w.vertices.take(w.vertices.len() as int) =~= w.vertices);
    } else {
        let front = cs.drop_last();
        let u = weld_all(w, front, a)->Ok_0;
        let v = weld_all(w, cs, a)->Ok_0;
        lemma_weld_all_table(w, front, a);
        lemma_weld_table(u, cs.last(), a);
        assert(v.indices.take(w.indices.len() as int) =~= w.indices) by {
            assert forall|j: int| 0 <= j < w.indices.len() implies v.indices[j] == w.indices[j] by {
                assert(v.indices.take(u.indices.len() as int)[j] == v.indices[j]);
                assert(u.indices.take(w.indices.len() as int)[j] == u.indices[j]);
            }
        }
        assert(v.tokens.take(w.tokens.len() as int) =~= w.tokens) by {
            assert forall|j: int| 0 <= j < w.tokens.len() implies v.tokens[j] == w.tokens[j] by {
                assert(v.tokens.take(u.tokens.len() as int)[j] == v.tokens[j]);
                assert(u.tokens.take(w.tokens.len() as int)[j] == u.tokens[j]);
            }
        }
        assert(v.vertices.take(w.vertices.len() as int) =~= w.vertices) by {
            assert forall|j: int| 0 <= j < w.vertices.len() implies v.vertices[j]
                == w.vertices[j] by {
                assert(v.vertices.take(u.vertices.len() as int)[j] == v.vertices[j]);
                assert(u.vertices.take(w.vertices.len() as int)[j] == u.vertices[j]);
            }
        }
        assert forall|i: int| 0 <= i < cs.len() implies first_index(
            v.tokens,
            #[trigger] cs[i].id,
        ) < v.tokens.len() by {
            if i < front.len() {
                assert(front[i] == cs[i]);
                assert(first_index(u.tokens, front[i].id) < u.tokens.len());
            }
        }
    }
}

/// While a face is welded the table never holds more than one new entry
/// per corner of the face, although a quad sends six corners through.
pub proof fn lemma_face_fits(w: Welded, cs: Seq<CornerView>, a: Attributes, n: int)
    requires
        cs.len() == 3 || cs.len() == 4,
        0 <= n <= fan(cs).len(),
        weld_all(w, fan(cs).take(n), a) is Ok,
    ensures
        (weld_all(w, fan(cs).take(n), a)->Ok_0).tokens.len() <= w.tokens.len() + cs.len(),
        n < fan(cs).len() ==> (weld_all(w, fan(cs).take(n), a)->Ok_0).tokens.len() < w.tokens.len()
            + cs.len(),
{
    let f = fan(cs);
    lemma_weld_all_table(w, f.take(n), a);
    if cs.len() == 4 && n >= 4 {
        // the fourth and fifth corners sent through were welded among the first three
        lemma_weld_all_step(w, f, a, 3);
        let v3 = weld_all(w, f.take(3), a)->Ok_0;
        if n >= 5 {
            lemma_weld_all_step(w, f, a, 4);
            if n >= 6 {
                lemma_weld_all_step(w, f, a, 5);
                assert(f.take(6) =~= f);
            }
        }
        lemma_weld_all_table(w, f.take(3), a);
        assert(f.take(3)[0] == cs[0] && f.take(3)[2] == cs[2]);
        assert(first_index(v3.tokens, f.take(3)[0].id) < v3.tokens.len());
        assert(first_index(v3.tokens, f.take(3)[2].id) < v3.tokens.len());
        lemma_weld_table(v3, cs[0], a);
        let v4 = weld(v3, cs[0], a)->Ok_0;
        assert(v4.tokens == v3.tokens);
        if n >= 5 {
            lemma_weld_table(v4, cs[2], a);
            let v5 = weld(v4, cs[2], a)->Ok_0;
            assert(v5.tokens == v3.tokens);
            if n >= 6 {
                lemma_weld_table(v5, cs[3], a);
            }
        }
    }
}

/// Welds a face into the table and the index stream; see [`weld_face`].
///
/// When a corner cannot be resolved, neither the table nor the index
/// stream changes.
pub fn add_face(
    face: &Face,
    verticies: &mut Vec<(Vec<u8>, VertexRaw)>,
    indices: &mut Vec<u32>,
    positions: &Vec<Vector3>,
    normals: &Vec<Vector3>,
    uvs: &Vec<Vector2>,
) -> (r: Result<(), ErrorKind>)
    requires
        old(verticies)@.len() + face.corners().len() <= u32::MAX,
    ensures
        match weld_face(
            welded_of(old(verticies)@, old(indices)@),
            face.corners(),
            attributes_of(positions@, normals@, uvs@),
        ) {
            Ok(w) => r is Ok && welded_of(final(verticies)@, final(indices)@) == w,
            Err(k) => r matches Err(e) && e == k && final(verticies)@ == old(verticies)@
                && final(indices)@ == old(indices)@,
        },
{
    let corners: Vec<&FaceIndices> = match face {
        Face::Triangle(a, b, c) => vec![a, b, c],
        Face::Quad(a, b, c, d) => vec![a, b, c, a, c, d],
    };
    proof {
        let w0 = welded_of(verticies@, indices@);
        let at = attributes_of(positions@, normals@, uvs@);
        let cs = face.corners();
        assert(corner_views(corners@) =~= fan(cs));
        assert forall|n: int| 0 <= n < corners@.len() implies (#[trigger] weld_all(
            w0,
            corner_views(corners@).take(n),
            at,
        ) matches Ok(v) ==> v.tokens.len() <= u32::MAX) by {
            if weld_all(w0, fan(cs).take(n), at) is Ok {
                lemma_face_fits(w0, cs, at, n);
            }
        }
    }
    weld_corners(&corners, verticies, indices, positions, normals, uvs)
}

/// A triangle whose three corners are distinct tokens that the table does
/// not hold yet, and can be resolved, enters them at the end of the table
/// in the order in which they were written, and emits their three table
/// positions in that order.
pub proof fn lemma_triangle_of_new_corners(w: Welded, cs: Seq<CornerView>, a: Attributes)
    requires
        cs.len() == 3,
        w.tokens.len() + 3 <= u32::MAX,
        forall|i: int| 0 <= i < 3 ==> first_index(w.tokens, #[trigger] cs[i].id) == w.tokens.len(),
        cs[0].id != cs[1].id && cs[0].id != cs[2].id && cs[1].id != cs[2].id,
        forall|i: int|
            0 <= i < 3 ==> FaceIndices::resolvable(#[trigger] cs[i], a.positions, a.normals, a.uvs),
    ensures
        weld_face(w, cs, a) == Ok::<Welded, ErrorKind>(
            Welded {
                tokens: w.tokens + seq![cs[0].id, cs[1].id, cs[2].id],
                vertices: w.vertices + seq![
                    FaceIndices::resolved(cs[0], a.positions, a.normals, a.uvs),
                    FaceIndices::resolved(cs[1], a.positions, a.normals, a.uvs),
                    FaceIndices::resolved(cs[2], a.positions, a.normals, a.uvs),
                ],
                indices: w.indices + seq![
                    w.tokens.len() as u32,
                    (w.tokens.len() + 1) as u32,
                    (w.tokens.len() + 2) as u32,
                ],
            },
        ),
{
    let t = w.tokens;
    assert(first_index(t, cs[0].id) == t.len() && first_index(t, cs[1].id) == t.len()
        && first_index(t, cs[2].id) == t.len());
    assert(FaceIndices::resolvable(cs[0], a.positions, a.normals, a.uvs)
        && FaceIndices::resolvable(cs[1], a.positions, a.normals, a.uvs)
        && FaceIndices::resolvable(cs[2], a.positions, a.normals, a.uvs));
    lemma_first_index_push_absent(t, cs[0].id, cs[1].id);
    lemma_first_index_push_absent(t, cs[0].id, cs[2].id);
    lemma_first_index_push_absent(t.push(cs[0].id), cs[1].id, cs[2].id);
    lemma_weld_all_step(w, cs, a, 0);
    lemma_weld_all_step(w, cs, a, 1);
    lemma_weld_all_step(w, cs, a, 2);
    assert(cs.take(0) =~= Seq::<CornerView>::empty());
    assert(cs.take(3) =~= cs);
    let v = weld_all(w, cs, a)->Ok_0;
    assert(v.tokens =~= w.tokens + seq![cs[0].id, cs[1].id, cs[2].id]);
    assert(v.vertices =~= w.vertices + seq![
        FaceIndices::resolved(cs[0], a.positions, a.normals, a.uvs),
        FaceIndices::resolved(cs[1], a.positions, a.normals, a.uvs),
        FaceIndices::resolved(cs[2], a.positions, a.normals, a.uvs),
    ]);
    assert(v.indices =~= w.indices + seq![
        w.tokens.len() as u32,
        (w.tokens.len() + 1) as u32,
        (w.tokens.len() + 2) as u32,
    ]);
}

/// A quad whose four corners are distinct tokens that the table does not
/// hold yet, and can be resolved, enters them at the end of the table in
/// the order in which they were written, and emits six table positions:
/// those of corners `0 1 2` and then of corners `0 2 3`.
pub proof fn lemma_quad_of_new_corners(w: Welded, cs: Seq<CornerView>, a: Attributes)
    requires
        cs.len() == 4,
        w.tokens.len() + 4 <= u32::MAX,
        forall|i: int| 0 <= i < 4 ==> first_index(w.tokens, #[trigger] cs[i].id) == w.tokens.len(),
        forall|i: int, j: int| 0 <= i < j < 4 ==> cs[i].id != cs[j].id,
        forall|i: int|
            0 <= i < 4 ==> FaceIndices::resolvable(#[trigger] cs[i], a.positions, a.normals, a.uvs),
    ensures
        weld_face(w, cs, a) == Ok::<Welded, ErrorKind>(
            Welded {
                tokens: w.tokens + seq![cs[0].id, cs[1].id, cs[2].id, cs[3].id],
                vertices: w.vertices + seq![
                    FaceIndices::resolved(cs[0], a.positions, a.normals, a.uvs),
                    FaceIndices::resolved(cs[1], a.positions, a.normals, a.uvs),
                    FaceIndices::resolved(cs[2], a.positions, a.normals, a.uvs),
                    FaceIndices::resolved(cs[3], a.positions, a.normals, a.uvs),
                ],
                indices: w.indices + seq![
                    w.tokens.len() as u32,
                    (w.tokens.len() + 1) as u32,
                    (w.tokens.len() + 2) as u32,
                    w.tokens.len() as u32,
                    (w.tokens.len() + 2) as u32,
                    (w.tokens.len() + 3) as u32,
                ],
            },
        ),
{
    let t = w.tokens;
    let f = fan(cs);
    let (i0, i1, i2, i3) = (cs[0].id, cs[1].id, cs[2].id, cs[3].id);
    assert(first_index(t, i0) == t.len() && first_index(t, i1) == t.len() && first_index(t, i2)
        == t.len() && first_index(t, i3) == t.len());
    assert(FaceIndices::resolvable(cs[0], a.positions, a.normals, a.uvs)
        && FaceIndices::resolvable(cs[1], a.positions, a.normals, a.uvs)
        && FaceIndices::resolvable(cs[2], a.positions, a.normals, a.uvs)
        && FaceIndices::resolvable(cs[3], a.positions, a.normals, a.uvs));
    let t1 = t.push(i0);
    let t2 = t1.push(i1);
    let t3 = t2.push(i2);
    // where each token stands after each entry
    lemma_first_index_push_absent(t, i0, i0);
    lemma_first_index_push_absent(t, i0, i1);
    lemma_first_index_push_absent(t, i0, i2);
    lemma_first_index_push_absent(t, i0, i3);
    lemma_first_index_push_present(t1, i1, i0);
    lemma_first_index_push_absent(t1, i1, i1);
    lemma_first_index_push_absent(t1, i1, i2);
    lemma_first_index_push_absent(t1, i1, i3);
    lemma_first_index_push_present(t2, i2, i0);
    lemma_first_index_push_absent(t2, i2, i2);
    lemma_first_index_push_absent(t2, i2, i3);
    lemma_weld_all_step(w, f, a, 0);
    lemma_weld_all_step(w, f, a, 1);
    lemma_weld_all_step(w, f, a, 2);
    lemma_weld_all_step(w, f, a, 3);
    lemma_weld_all_step(w, f, a, 4);
    lemma_weld_all_step(w, f, a, 5);
    assert(f.take(0) =~= Seq::<CornerView>::empty());
    assert(f.take(6) =~= f);
    let v3 = weld_all(w, f.take(3), a)->Ok_0;
    assert(v3.tokens == t3);
    let v = weld_all(w, f, a)->Ok_0;
    assert(v.tokens =~= w.tokens + seq![i0, i1, i2, i3]);
    assert(v.vertices =~= w.vertices + seq![
        FaceIndices::resolved(cs[0], a.positions, a.normals, a.uvs),
        FaceIndices::resolved(cs[1], a.positions, a.normals, a.uvs),
        FaceIndices::resolved(cs[2], a.positions, a.normals, a.uvs),
        FaceIndices::resolved(cs[3], a.positions, a.normals, a.uvs),
    ]);
    assert(v.indices =~= w.indices + seq![
        w.tokens.len() as u32,
        (w.tokens.len() + 1) as u32,
        (w.tokens.len() + 2) as u32,
        w.tokens.len() as u32,
        (w.tokens.len() + 2) as u32,
        (w.tokens.len() + 3) as u32,
    ]);
}

/// A corner whose token the table holds leaves the table as it is and
/// emits the position at which the token was entered.
pub proof fn lemma_known_corner_is_reused(w: Welded, c: CornerView, a: Attributes)
    requires
        first_index(w.tokens, c.id) < w.tokens.len(),
    ensures
        weld(w, c, a) == Ok::<Welded, ErrorKind>(
            Welded { indices: w.indices.push(first_index(w.tokens, c.id) as u32), ..w },
        ),
        w.tokens[first_index(w.tokens, c.id)] == c.id,
{
    lemma_first_index(w.tokens, c.id);
}

/// The largest entry of an index stream, or zero if the stream is empty.
pub open spec fn largest(indices: Seq<u32>) -> u32
    decreases indices.len(),
{
    if indices.len() == 0 {
        0
    } else if largest(indices.drop_last()) >= indices.last() {
        largest(indices.drop_last())
    } else {
        indices.last()
    }
}

/// The table position that is free next, going by the index stream alone:
/// none has been given out while the stream is empty, and after that the
/// one behind the largest that was emitted.
pub open spec fn next_position(indices: Seq<u32>) -> int {
    if indices.len() == 0 {
        0
    } else {
        largest(indices) + 1
    }
}

/// Finds the largest table position that was emitted so far; see
/// [`largest`].
pub fn find_previous_index(indices: &Vec<u32>) -> (r: u32)
    ensures
        r == largest(indices@),
{
    let mut largest_index: u32 = 0;
    let mut i: usize = 0;
    proof {
        assert(indices@.take(0) =~= Seq::<u32>::empty());
    }
    while i < indices.len()
        invariant
            i <= indices@.len(),
            largest_index == largest(indices@.take(i as int)),
        decreases indices@.len() - i,
    {
        proof {
            assert(indices@.take(i + 1).drop_last() =~= indices@.take(i as int));
            assert(indices@.take(i + 1).last() == indices@[i as int]);
        }
        if indices[i] > largest_index {
            largest_index = indices[i];
        }
        i += 1;
    }
    proof {
        assert(indices@.take(i as int) =~= indices@);
    }
    largest_index
}

impl Welded {
    /// What holds of every welding state that fits 32-bit table positions
    /// and offsets:
    /// each token has its vertex, no token is in the table twice, every
    /// entry of the index stream is a table position, and every table
    /// position has been emitted, so that the table ends where the index
    /// stream says the next free position is.
    pub open spec fn wf(self) -> bool {
        &&& self.tokens.len() == self.vertices.len()
        &&& self.tokens.len() <= u32::MAX
        &&& self.indices.len() <= u32::MAX
        &&& forall|i: int|
            0 <= i < self.tokens.len() ==> first_index(self.tokens, #[trigger] self.tokens[i]) == i
        &&& forall|i: int|
            0 <= i < self.indices.len() ==> (#[trigger] self.indices[i]) < self.tokens.len()
        &&& self.tokens.len() == next_position(self.indices)
    }
}

/// Welding a corner keeps the welding state well-formed, as long as the
/// table and the index stream fit 32 bits.
pub proof fn lemma_weld_keeps_wf(w: Welded, c: CornerView, a: Attributes)
    requires
        w.wf(),
        weld(w, c, a) is Ok,
        (weld(w, c, a)->Ok_0).tokens.len() <= u32::MAX,
        (weld(w, c, a)->Ok_0).indices.len() <= u32::MAX,
    ensures
        (weld(w, c, a)->Ok_0).wf(),
{
    let v = weld(w, c, a)->Ok_0;
    let k = first_index(w.tokens, c.id);
    lemma_first_index(w.tokens, c.id);
    assert(v.indices.drop_last() =~= w.indices);
    if k < w.tokens.len() {
        assert forall|i: int| 0 <= i < v.indices.len() implies (#[trigger] v.indices[i])
            < v.tokens.len() by {
            if i < w.indices.len() {
                assert(v.indices[i] == w.indices[i]);
            }
        }
    } else {
        assert forall|i: int| 0 <= i < v.tokens.len() implies first_index(
            v.tokens,
            #[trigger] v.tokens[i],
        ) == i by {
            if i < w.tokens.len() {
                assert(v.tokens[i] == w.tokens[i]);
                lemma_first_index_push_present(w.tokens, c.id, w.tokens[i]);
            } else {
                lemma_first_index_push_absent(w.tokens, c.id, c.id);
            }
        }
        assert forall|i: int| 0 <= i < v.indices.len() implies (#[trigger] v.indices[i])
            < v.tokens.len() by {
            if i < w.indices.len() {
                assert(v.indices[i] == w.indices[i]);
            }
        }
    }
}

/// Welding a run of corners keeps the welding state well-formed, as long
/// as the table and the index stream fit 32 bits.
pub proof fn lemma_weld_all_keeps_wf(w: Welded, cs: Seq<CornerView>, a: Attributes)
    requires
        w.wf(),
        weld_all(w, cs, a) is Ok,
        (weld_all(w, cs, a)->Ok_0).tokens.len() <= u32::MAX,
        (weld_all(w, cs, a)->Ok_0).indices.len() <= u32::MAX,
    ensures
        (weld_all(w, cs, a)->Ok_0).wf(),
    decreases cs.len(),
{
    if cs.len() > 0 {
        let u = weld_all(w, cs.drop_last(), a)->Ok_0;
        lemma_weld_table(u, cs.last(), a);
        lemma_weld_all_keeps_wf(w, cs.drop_last(), a);
        lemma_weld_keeps_wf(u, cs.last(), a);
    }
}

impl Welded {
    /// Whether the table entry at `i` holds what its token denotes: the
    /// token is a corner whose indices name declared attributes, and the
    /// vertex is made of those attributes.
    pub open spec fn resolves_at(self, a: Attributes, i: int) -> bool {
        corner(self.tokens[i]) matches Ok(c) && FaceIndices::resolvable(
            c,
            a.positions,
            a.normals,
            a.uvs,
        ) && self.vertices[i] == FaceIndices::resolved(c, a.positions, a.normals, a.uvs)
    }

    /// Whether every table entry holds what its token denotes.
    pub open spec fn resolves(self, a: Attributes) -> bool {
        forall|i: int| 0 <= i < self.tokens.len() ==> #[trigger] self.resolves_at(a, i)
    }
}

/// Welding a corner that is what its token denotes keeps every table entry
/// what its token denotes.
pub proof fn lemma_weld_keeps_resolved(w: Welded, c: CornerView, a: Attributes)
    requires
        w.tokens.len() == w.vertices.len(),
        w.resolves(a),
        corner(c.id) == Ok::<CornerView, ErrorKind>(c),
        weld(w, c, a) is Ok,
    ensures
        (weld(w, c, a)->Ok_0).resolves(a),
{
    let v = weld(w, c, a)->Ok_0;
    lemma_first_index(w.tokens, c.id);
    assert forall|i: int| 0 <= i < v.tokens.len() implies #[trigger] v.resolves_at(a, i) by {
        if i < w.tokens.len() {
            assert(w.resolves_at(a, i));
        }
    }
}

/// Welding corners that are what their tokens denote keeps every table
/// entry what its token denotes.
pub proof fn lemma_weld_all_keeps_resolved(w: Welded, cs: Seq<CornerView>, a: Attributes)
    requires
        w.tokens.len() == w.vertices.len(),
        w.resolves(a),
        forall|j: int| 0 <= j < cs.len() ==> corner(#[trigger] cs[j].id) == Ok::<CornerView, ErrorKind>(cs[j]),
        weld_all(w, cs, a) is Ok,
    ensures
        (weld_all(w, cs, a)->Ok_0).resolves(a),
    decreases cs.len(),
{
    if cs.len() > 0 {
        let front = cs.drop_last();
        let u = weld_all(w, front, a)->Ok_0;
        assert forall|j: int| 0 <= j < front.len() implies corner(#[trigger] front[j].id) == Ok::<
            CornerView,
            ErrorKind,
        >(front[j]) by {
            assert(front[j] == cs[j]);
        }
        lemma_weld_all_keeps_resolved(w, front, a);
        lemma_weld_all_table(w, front, a);
        assert(corner(cs[cs.len() - 1].id) == Ok::<CornerView, ErrorKind>(cs[cs.len() - 1]));
        lemma_weld_keeps_resolved(u, cs.last(), a);
    }
}

/// Vertices that are made of numeric attributes are numeric.
pub proof fn lemma_resolved_vertices_are_numeric(w: Welded, a: Attributes)
    requires
        w.tokens.len() == w.vertices.len(),
        w.resolves(a),
        a.numeric(),
    ensures
        forall|i: int| 0 <= i < w.vertices.len() ==> (#[trigger] w.vertices[i]).numeric(),
{
    assert forall|i: int| 0 <= i < w.vertices.len() implies (#[trigger] w.vertices[i]).numeric() by {
        assert(w.resolves_at(a, i));
        let c = corner(w.tokens[i])->Ok_0;
        assert(numeric(a.positions[c.position as int], 3));
        assert(numeric(a.normals[c.normal as int], 3));
        assert(numeric(a.uvs[c.uv as int], 2));
    }
}

} // verus!
