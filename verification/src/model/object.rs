//! Object text: positions, texture coordinates, normals and faces, line by
//! line, into a welded vertex list, an index stream and mesh segments.

use crate::model::error::{ErrorKind, ParseError};
use crate::model::face::{
    corner, face, lemma_face_corners_are_genuine, lemma_face_len, parse_face, CornerView,
};
use crate::model::geometry::{
    lemma_numbers_are_numeric, numbers, numeric, parse_into_vec2f32, parse_into_vec3f32, views,
    Mesh, Model, Vector2, Vector3, VertexRaw,
};
use crate::model::mesh::{
    close_mesh, closing_mesh, extent_sum, lemma_close_keeps_offsets, lemma_first_two_offsets,
    offsets_follow,
};
use crate::model::text::{
    has_prefix, joined_len, lemma_joined_len_take, lemma_split_joined_len, rows, split,
    split_bytes, starts_with, words, NEWLINE,
};
use crate::model::weld::{
    add_face, attributes_of, fan, lemma_face_fits, lemma_known_corner_is_reused,
    lemma_resolved_vertices_are_numeric, lemma_weld_all_keeps_resolved, lemma_weld_all_keeps_wf,
    lemma_weld_all_table, vertices_of, weld, weld_all, weld_face, welded_of, Attributes, Welded,
};
use crate::sequence::{first_index, lemma_first_index_prefix, lemma_prefix_of_prefix};
use vstd::prelude::*;
use vstd::slice::slice_subrange;
use vstd::utf8::encode_utf8;

verus! {

/// What a line is, going by how it begins.
#[derive(Clone, Copy, Debug, PartialEq, Eq, Structural)]
pub enum LineKind {
    /// `o `: a new object begins.
    Object,
    /// `v `: a position.
    Position,
    /// `vt `: a texture coordinate.
    TexCoord,
    /// `vn `: a normal.
    Normal,
    /// `f `: a face.
    Face,
    /// Anything else, comments and blank lines included.
    Other,
}

/// `o` and a space.
pub open spec fn object_prefix() -> Seq<u8> {
    seq![111u8, 32u8]
}

/// `v` and a space.
pub open spec fn position_prefix() -> Seq<u8> {
    seq![118u8, 32u8]
}

/// `vt` and a space.
pub open spec fn texcoord_prefix() -> Seq<u8> {
    seq![118u8, 116u8, 32u8]
}

/// `vn` and a space.
pub open spec fn normal_prefix() -> Seq<u8> {
    seq![118u8, 110u8, 32u8]
}

/// `f` and a space.
pub open spec fn face_prefix() -> Seq<u8> {
    seq![102u8, 32u8]
}

/// The kind of a line. No line begins with two of the prefixes, so the
/// order of the tests does not matter.
pub open spec fn classify(line: Seq<u8>) -> LineKind {
    if has_prefix(line, object_prefix()) {
        LineKind::Object
    } else if has_prefix(line, position_prefix()) {
        LineKind::Position
    } else if has_prefix(line, texcoord_prefix()) {
        LineKind::TexCoord
    } else if has_prefix(line, normal_prefix()) {
        LineKind::Normal
    } else if has_prefix(line, face_prefix()) {
        LineKind::Face
    } else {
        LineKind::Other
    }
}

/// Decides [`classify`].
pub fn classify_line(line: &[u8]) -> (kind: LineKind)
    ensures
        kind == classify(line@),
{
    let object: [u8; 2] = [111, 32];
    let position: [u8; 2] = [118, 32];
    let texcoord: [u8; 3] = [118, 116, 32];
    let normal: [u8; 3] = [118, 110, 32];
    let face: [u8; 2] = [102, 32];
    proof {
        assert(object@ =~= object_prefix());
        assert(position@ =~= position_prefix());
        assert(texcoord@ =~= texcoord_prefix());
        assert(normal@ =~= normal_prefix());
        assert(face@ =~= face_prefix());
    }
    if starts_with(line, object.as_slice()) {
        LineKind::Object
    } else if starts_with(line, position.as_slice()) {
        LineKind::Position
    } else if starts_with(line, texcoord.as_slice()) {
        LineKind::TexCoord
    } else if starts_with(line, normal.as_slice()) {
        LineKind::Normal
    } else if starts_with(line, face.as_slice()) {
        LineKind::Face
    } else {
        LineKind::Other
    }
}

/// Everything that has been gathered from the lines read so far.
pub struct Scan {
    pub attributes: Attributes,
    pub welded: Welded,
    pub meshes: Seq<Mesh>,
}

impl Scan {
    /// Nothing read yet.
    pub open spec fn empty() -> Scan {
        Scan {
            attributes: Attributes {
                positions: Seq::empty(),
                normals: Seq::empty(),
                uvs: Seq::empty(),
            },
            welded: Welded { tokens: Seq::empty(), vertices: Seq::empty(), indices: Seq::empty() },
            meshes: Seq::empty(),
        }
    }

    /// Closes the current mesh: it ends where the index stream ends now.
    pub open spec fn close(self) -> Scan {
        Scan {
            meshes: self.meshes.push(closing_mesh(self.meshes, self.welded.indices.len())),
            ..self
        }
    }
}

/// What one line does.
///
/// A position, texture coordinate or normal is appended to the attributes
/// of its kind. A face is welded. An object line closes the current mesh,
/// unless nothing has been emitted yet. Any other line does nothing.
pub open spec fn step(s: Scan, line: Seq<u8>) -> Result<Scan, ErrorKind> {
    match classify(line) {
        LineKind::Object => Ok(
            if s.welded.indices.len() > 0 {
                s.close()
            } else {
                s
            },
        ),
        LineKind::Position => match numbers(line.skip(2), 3) {
            Ok(v) => Ok(
                Scan {
                    attributes: Attributes {
                        positions: s.attributes.positions.push(v),
                        ..s.attributes
                    },
                    ..s
                },
            ),
            Err(k) => Err(k),
        },
        LineKind::TexCoord => match numbers(line.skip(3), 2) {
            Ok(v) => Ok(
                Scan { attributes: Attributes { uvs: s.attributes.uvs.push(v), ..s.attributes }, ..s },
            ),
            Err(k) => Err(k),
        },
        LineKind::Normal => match numbers(line.skip(3), 3) {
            Ok(v) => Ok(
                Scan {
                    attributes: Attributes { normals: s.attributes.normals.push(v), ..s.attributes },
                    ..s
                },
            ),
            Err(k) => Err(k),
        },
        LineKind::Face => match face(line.skip(2)) {
            Ok(cs) => match weld_face(s.welded, cs, s.attributes) {
                Ok(w) => Ok(Scan { welded: w, ..s }),
                Err(k) => Err(k),
            },
            Err(k) => Err(k),
        },
        LineKind::Other => Ok(s),
    }
}

/// What a run of lines does, from a given state: each line in turn, up to
/// the first that is rejected, which is reported with its number.
pub open spec fn scan(s: Scan, lines: Seq<Seq<u8>>) -> Result<Scan, ParseError>
    decreases lines.len(),
{
    if lines.len() == 0 {
        Ok(s)
    } else {
        match scan(s, lines.drop_last()) {
            Ok(t) => match step(t, lines.last()) {
                Ok(u) => Ok(u),
                Err(k) => Err(ParseError { kind: k, line: (lines.len() - 1) as usize }),
            },
            Err(e) => Err(e),
        }
    }
}

/// What object text denotes: its lines are read in order from the empty
/// state, and at the end the last mesh is closed.
pub open spec fn parse_object(text: Seq<u8>) -> Result<Scan, ParseError> {
    match scan(Scan::empty(), split(text, NEWLINE)) {
        Ok(s) => Ok(s.close()),
        Err(e) => Err(e),
    }
}

/// A reader of object text that is fed one line at a time.
#[derive(Debug)]
pub struct ObjectScanner {
    pub positions: Vec<Vector3>,
    pub uvs: Vec<Vector2>,
    pub normals: Vec<Vector3>,
    pub verticies: Vec<(Vec<u8>, VertexRaw)>,
    pub indices: Vec<u32>,
    pub meshes: Vec<Mesh>,
}

impl View for ObjectScanner {
    type V = Scan;

    open spec fn view(&self) -> Scan {
        Scan {
            attributes: attributes_of(self.positions@, self.normals@, self.uvs@),
            welded: welded_of(self.verticies@, self.indices@),
            meshes: self.meshes@,
        }
    }
}

impl ObjectScanner {
    /// Whether the table can take the corners of one more face: table
    /// positions are 32-bit.
    pub open spec fn has_room(&self) -> bool {
        self.verticies@.len() + 4 <= u32::MAX
    }

    /// Decides [`Self::has_room`].
    pub fn room_for_face(&self) -> (r: bool)
        ensures
            r == self.has_room(),
    {
        self.verticies.len() <= u32::MAX as usize - 4
    }

    /// A reader that has read nothing.
    pub fn new() -> (r: Self)
        ensures
            r@ == Scan::empty(),
    {
        let r = ObjectScanner {
            positions: Vec::new(),
            uvs: Vec::new(),
            normals: Vec::new(),
            verticies: Vec::new(),
            indices: Vec::new(),
            meshes: Vec::new(),
        };
        proof {
            assert(r@.attributes.positions =~= Seq::empty());
            assert(r@.attributes.normals =~= Seq::empty());
            assert(r@.attributes.uvs =~= Seq::empty());
            assert(r@.welded.tokens =~= Seq::empty());
            assert(r@.welded.vertices =~= Seq::empty());
        }
        r
    }

    /// Reads one line; see [`step`]. A line that is rejected changes
    /// nothing.
    pub fn add_line(&mut self, line: &[u8]) -> (r: Result<(), ErrorKind>)
        requires
            old(self).has_room(),
        ensures
            match step(old(self)@, line@) {
                Ok(s) => r is Ok && final(self)@ == s,
                Err(k) => r matches Err(e) && e == k && final(self)@ == old(self)@,
            },
    {
        match classify_line(line) {
            LineKind::Object => {
                if self.indices.len() > 0 {
                    self.close();
                }
                Ok(())
            },
            LineKind::Position => {
                match parse_into_vec3f32(slice_subrange(line, 2, line.len())) {
                    Ok(v) => {
                        proof {
                            assert(views(self.positions@.push(v)) =~= views(self.positions@).push(
                                v@,
                            ));
                        }
                        self.positions.push(v);
                        Ok(())
                    },
                    Err(e) => Err(e),
                }
            },
            LineKind::TexCoord => {
                match parse_into_vec2f32(slice_subrange(line, 3, line.len())) {
                    Ok(v) => {
                        proof {
                            assert(views(self.uvs@.push(v)) =~= views(self.uvs@).push(v@));
                        }
                        self.uvs.push(v);
                        Ok(())
                    },
                    Err(e) => Err(e),
                }
            },
            LineKind::Normal => {
                match parse_into_vec3f32(slice_subrange(line, 3, line.len())) {
                    Ok(v) => {
                        proof {
                            assert(views(self.normals@.push(v)) =~= views(self.normals@).push(v@));
                        }
                        self.normals.push(v);
                        Ok(())
                    },
                    Err(e) => Err(e),
                }
            },
            LineKind::Face => {
                match parse_face(slice_subrange(line, 2, line.len())) {
                    Ok(f) => add_face(
                        &f,
                        &mut self.verticies,
                        &mut self.indices,
                        &self.positions,
                        &self.normals,
                        &self.uvs,
                    ),
                    Err(e) => Err(e),
                }
            },
            LineKind::Other => Ok(()),
        }
    }

    /// Closes the current mesh.
    pub fn close(&mut self)
        ensures
            final(self)@ == old(self)@.close(),
    {
        close_mesh(&mut self.meshes, self.indices.len());
    }

    /// Hands out what was read: the meshes, the vertices in table order,
    /// and the index stream.
    pub fn finish(self) -> (r: (Model, Vec<VertexRaw>, Vec<u32>))
        ensures
            r.0@ == self@.meshes,
            views(r.1@) == self@.welded.vertices,
            r.2@ == self@.welded.indices,
    {
        let ObjectScanner { positions: _, uvs: _, normals: _, verticies, indices, meshes } = self;
        let mut vertices: Vec<VertexRaw> = Vec::new();
        let mut i: usize = 0;
        while i < verticies.len()
            invariant
                i <= verticies@.len(),
                vertices@.len() == i,
                forall|k: int| 0 <= k < i ==> vertices@[k]@ == verticies@[k].1@,
            decreases verticies@.len() - i,
        {
            vertices.push(verticies[i].1.clone());
            i += 1;
        }
        proof {
            assert(views(vertices@) =~= vertices_of(verticies@));
        }
        (Model { meshes }, vertices, indices)
    }
}

/// The first rejected line is rejected whatever follows it.
pub proof fn lemma_scan_error_persists(s: Scan, lines: Seq<Seq<u8>>, n: int)
    requires
        0 <= n <= lines.len(),
        scan(s, lines.take(n)) is Err,
    ensures
        scan(s, lines) == scan(s, lines.take(n)),
    decreases lines.len(),
{
    if n < lines.len() {
        assert(lines.drop_last().take(n) =~= lines.take(n));
        lemma_scan_error_persists(s, lines.drop_last(), n);
    } else {
        assert(lines.take(n) =~= lines);
    }
}

/// Reading one more line after a run of lines.
pub proof fn lemma_scan_step(s: Scan, lines: Seq<Seq<u8>>, n: int)
    requires
        0 <= n < lines.len(),
    ensures
        scan(s, lines.take(n + 1)) == (match scan(s, lines.take(n)) {
            Ok(t) => match step(t, lines[n]) {
                Ok(u) => Ok(u),
                Err(k) => Err(ParseError { kind: k, line: n as usize }),
            },
            Err(e) => Err(e),
        }),
{
    assert(lines.take(n + 1).drop_last() =~= lines.take(n));
    assert(lines.take(n + 1).last() == lines[n]);
}

/// A line enters at most one vertex for every two of its bytes, counting
/// the line break, and emits at most one index for every byte. So text of
/// fewer than `2^32` bytes never needs a table position or an offset
/// beyond 32 bits.
pub proof fn lemma_step_growth(s: Scan, line: Seq<u8>)
    requires
        step(s, line) is Ok,
    ensures
        ({
            let t = step(s, line)->Ok_0;
            &&& s.welded.tokens.len() <= t.welded.tokens.len()
            &&& 2 * (t.welded.tokens.len() - s.welded.tokens.len()) <= line.len() + 1
            &&& s.welded.indices.len() <= t.welded.indices.len()
            &&& t.welded.indices.len() - s.welded.indices.len() <= line.len()
        }),
{
    if classify(line) == LineKind::Face {
        let text = line.skip(2);
        let cs = face(text)->Ok_0;
        lemma_face_len(text);
        assert(fan(cs).take(fan(cs).len() as int) =~= fan(cs));
        lemma_face_fits(s.welded, cs, s.attributes, fan(cs).len() as int);
        lemma_weld_all_table(s.welded, fan(cs), s.attributes);
    }
}

impl Scan {
    /// Whether this state continues `earlier`: everything that `earlier`
    /// holds is still there, in the same place, and what is new follows it.
    pub open spec fn extends(self, earlier: Scan) -> bool {
        &&& earlier.attributes.positions.is_prefix_of(self.attributes.positions)
        &&& earlier.attributes.normals.is_prefix_of(self.attributes.normals)
        &&& earlier.attributes.uvs.is_prefix_of(self.attributes.uvs)
        &&& earlier.welded.tokens.is_prefix_of(self.welded.tokens)
        &&& earlier.welded.vertices.is_prefix_of(self.welded.vertices)
        &&& earlier.welded.indices.is_prefix_of(self.welded.indices)
        &&& earlier.meshes.is_prefix_of(self.meshes)
    }

    /// What holds of every state that a text of fewer than `2^32` bytes
    /// leads to: the welding state is well-formed, every vertex is made of
    /// the attributes that its token names, every mesh starts at the
    /// offset that the meshes before it give, and the first mesh lies
    /// within the index stream. Every attribute, and with it every vertex,
    /// is made of numeric literals.
    pub open spec fn wf(self) -> bool {
        &&& self.attributes.numeric()
        &&& self.welded.wf()
        &&& self.welded.resolves(self.attributes)
        &&& offsets_follow(self.meshes)
        &&& self.meshes.len() >= 1 ==> self.meshes[0].len <= self.welded.indices.len()
    }
}

/// Nothing that was gathered is ever dropped or moved: the state after a
/// line continues the state before it.
pub proof fn lemma_step_extends(s: Scan, line: Seq<u8>)
    requires
        step(s, line) is Ok,
    ensures
        (step(s, line)->Ok_0).extends(s),
{
    let t = step(s, line)->Ok_0;
    if classify(line) == LineKind::Face {
        let cs = face(line.skip(2))->Ok_0;
        lemma_weld_all_table(s.welded, fan(cs), s.attributes);
    }
    assert(s.attributes.positions =~= t.attributes.positions.subrange(
        0,
        s.attributes.positions.len() as int,
    ));
    assert(s.attributes.normals =~= t.attributes.normals.subrange(
        0,
        s.attributes.normals.len() as int,
    ));
    assert(s.attributes.uvs =~= t.attributes.uvs.subrange(0, s.attributes.uvs.len() as int));
    assert(s.welded.tokens =~= t.welded.tokens.subrange(0, s.welded.tokens.len() as int));
    assert(s.welded.vertices =~= t.welded.vertices.subrange(0, s.welded.vertices.len() as int));
    assert(s.welded.indices =~= t.welded.indices.subrange(0, s.welded.indices.len() as int));
    assert(s.meshes =~= t.meshes.subrange(0, s.meshes.len() as int));
}

/// The state after any run of lines continues the state before it.
pub proof fn lemma_scan_extends(s: Scan, lines: Seq<Seq<u8>>)
    requires
        scan(s, lines) is Ok,
    ensures
        (scan(s, lines)->Ok_0).extends(s),
    decreases lines.len(),
{
    if lines.len() == 0 {
        assert(s.attributes.positions =~= s.attributes.positions.subrange(
            0,
            s.attributes.positions.len() as int,
        ));
        assert(s.attributes.normals =~= s.attributes.normals.subrange(
            0,
            s.attributes.normals.len() as int,
        ));
        assert(s.attributes.uvs =~= s.attributes.uvs.subrange(0, s.attributes.uvs.len() as int));
        assert(s.welded.tokens =~= s.welded.tokens.subrange(0, s.welded.tokens.len() as int));
        assert(s.welded.vertices =~= s.welded.vertices.subrange(
            0,
            s.welded.vertices.len() as int,
        ));
        assert(s.welded.indices =~= s.welded.indices.subrange(0, s.welded.indices.len() as int));
        assert(s.meshes =~= s.meshes.subrange(0, s.meshes.len() as int));
    } else {
        let u = scan(s, lines.drop_last())->Ok_0;
        let t = scan(s, lines)->Ok_0;
        lemma_scan_extends(s, lines.drop_last());
        lemma_step_extends(u, lines.last());
        lemma_prefix_of_prefix(
            s.attributes.positions,
            u.attributes.positions,
            t.attributes.positions,
        );
        lemma_prefix_of_prefix(s.attributes.normals, u.attributes.normals, t.attributes.normals);
        lemma_prefix_of_prefix(s.attributes.uvs, u.attributes.uvs, t.attributes.uvs);
        lemma_prefix_of_prefix(s.welded.tokens, u.welded.tokens, t.welded.tokens);
        lemma_prefix_of_prefix(s.welded.vertices, u.welded.vertices, t.welded.vertices);
        lemma_prefix_of_prefix(s.welded.indices, u.welded.indices, t.welded.indices);
        lemma_prefix_of_prefix(s.meshes, u.meshes, t.meshes);
    }
}

/// A token that the table holds is reused wherever it occurs later in the
/// text, whatever lies in between and whichever object it occurs in: the
/// corner leaves the table as it is and emits the position at which the
/// token was first entered.
pub proof fn lemma_token_reused_later(s: Scan, lines: Seq<Seq<u8>>, c: CornerView)
    requires
        first_index(s.welded.tokens, c.id) < s.welded.tokens.len(),
        scan(s, lines) is Ok,
    ensures
        ({
            let t = scan(s, lines)->Ok_0;
            weld(t.welded, c, t.attributes) == Ok::<Welded, ErrorKind>(
                Welded {
                    indices: t.welded.indices.push(first_index(s.welded.tokens, c.id) as u32),
                    ..t.welded
                },
            )
        }),
{
    let t = scan(s, lines)->Ok_0;
    lemma_scan_extends(s, lines);
    lemma_first_index_prefix(s.welded.tokens, t.welded.tokens, c.id);
    lemma_known_corner_is_reused(t.welded, c, t.attributes);
}

/// A face line with fewer than three or more than four corners is
/// rejected for its arity, whatever its corners look like and whatever
/// has been read before.
pub proof fn lemma_wrong_arity_is_rejected(s: Scan, line: Seq<u8>)
    requires
        classify(line) == LineKind::Face,
        words(line.skip(2)).len() != 3,
        words(line.skip(2)).len() != 4,
    ensures
        step(s, line) == Err::<Scan, ErrorKind>(ErrorKind::UnsupportedFaceArity),
{
}

/// Every mesh starts at the offset that the meshes before it give, after
/// any run of lines.
pub proof fn lemma_scan_keeps_offsets(s: Scan, lines: Seq<Seq<u8>>)
    requires
        offsets_follow(s.meshes),
        scan(s, lines) is Ok,
    ensures
        offsets_follow((scan(s, lines)->Ok_0).meshes),
    decreases lines.len(),
{
    if lines.len() > 0 {
        let u = scan(s, lines.drop_last())->Ok_0;
        lemma_scan_keeps_offsets(s, lines.drop_last());
        lemma_close_keeps_offsets(u.meshes, u.welded.indices.len());
    }
}

/// In the meshes of any object text the first mesh starts at zero and the
/// second mesh starts exactly where the first one ends.
pub proof fn lemma_second_mesh_follows_first(text: Seq<u8>)
    requires
        parse_object(text) is Ok,
    ensures
        ({
            let meshes = (parse_object(text)->Ok_0).meshes;
            &&& meshes.len() >= 1
            &&& meshes[0].offset == 0
            &&& meshes.len() >= 2 ==> meshes[1].offset == meshes[0].offset + meshes[0].len
        }),
{
    let s = scan(Scan::empty(), split(text, NEWLINE))->Ok_0;
    lemma_scan_keeps_offsets(Scan::empty(), split(text, NEWLINE));
    lemma_close_keeps_offsets(s.meshes, s.welded.indices.len());
    lemma_first_two_offsets(s.close().meshes);
}

/// A run of lines enters at most one vertex for every two of its bytes,
/// counting the line breaks, and emits at most one index for every byte
/// that is no line break.
pub proof fn lemma_scan_growth(s: Scan, lines: Seq<Seq<u8>>)
    requires
        scan(s, lines) is Ok,
    ensures
        ({
            let t = scan(s, lines)->Ok_0;
            &&& s.welded.tokens.len() <= t.welded.tokens.len()
            &&& 2 * (t.welded.tokens.len() - s.welded.tokens.len()) <= joined_len(lines)
            &&& s.welded.indices.len() <= t.welded.indices.len()
            &&& t.welded.indices.len() - s.welded.indices.len() + lines.len() <= joined_len(lines)
        }),
    decreases lines.len(),
{
    if lines.len() > 0 {
        let u = scan(s, lines.drop_last())->Ok_0;
        lemma_scan_growth(s, lines.drop_last());
        lemma_step_growth(u, lines.last());
    }
}

/// Declaring one more attribute keeps every vertex what its token names.
proof fn lemma_attributes_grow(w: Welded, a: Attributes, b: Attributes)
    requires
        w.resolves(a),
        a.positions.is_prefix_of(b.positions),
        a.normals.is_prefix_of(b.normals),
        a.uvs.is_prefix_of(b.uvs),
    ensures
        w.resolves(b),
{
    assert forall|i: int| 0 <= i < w.tokens.len() implies #[trigger] w.resolves_at(b, i) by {
        assert(w.resolves_at(a, i));
        let c = corner(w.tokens[i])->Ok_0;
        assert(b.positions.subrange(0, a.positions.len() as int)[c.position as int]
            == b.positions[c.position as int]);
        assert(b.normals.subrange(0, a.normals.len() as int)[c.normal as int]
            == b.normals[c.normal as int]);
        assert(b.uvs.subrange(0, a.uvs.len() as int)[c.uv as int] == b.uvs[c.uv as int]);
    }
}

/// Declaring one more numeric attribute keeps the state well-formed.
proof fn lemma_attribute_line_keeps_wf(s: Scan, t: Scan)
    requires
        s.wf(),
        t.extends(s),
        t.welded == s.welded,
        t.meshes == s.meshes,
        t.attributes.positions.len() + t.attributes.normals.len() + t.attributes.uvs.len()
            == s.attributes.positions.len() + s.attributes.normals.len() + s.attributes.uvs.len()
            + 1,
        t.attributes.positions.len() > s.attributes.positions.len() ==> numeric(
            t.attributes.positions.last(),
            3,
        ),
        t.attributes.normals.len() > s.attributes.normals.len() ==> numeric(
            t.attributes.normals.last(),
            3,
        ),
        t.attributes.uvs.len() > s.attributes.uvs.len() ==> numeric(t.attributes.uvs.last(), 2),
    ensures
        t.wf(),
{
    lemma_attributes_grow(s.welded, s.attributes, t.attributes);
    let a = s.attributes;
    let b = t.attributes;
    assert forall|i: int| 0 <= i < b.positions.len() implies numeric(
        #[trigger] b.positions[i],
        3,
    ) by {
        if i < a.positions.len() {
            assert(b.positions.subrange(0, a.positions.len() as int)[i] == b.positions[i]);
            assert(numeric(a.positions[i], 3));
        }
    }
    assert forall|i: int| 0 <= i < b.normals.len() implies numeric(#[trigger] b.normals[i], 3) by {
        if i < a.normals.len() {
            assert(b.normals.subrange(0, a.normals.len() as int)[i] == b.normals[i]);
            assert(numeric(a.normals[i], 3));
        }
    }
    assert forall|i: int| 0 <= i < b.uvs.len() implies numeric(#[trigger] b.uvs[i], 2) by {
        if i < a.uvs.len() {
            assert(b.uvs.subrange(0, a.uvs.len() as int)[i] == b.uvs[i]);
            assert(numeric(a.uvs[i], 2));
        }
    }
}

/// A face line keeps the welding state well-formed and every vertex what
/// its token names.
proof fn lemma_face_line_keeps_wf(s: Scan, line: Seq<u8>)
    requires
        s.wf(),
        classify(line) == LineKind::Face,
        step(s, line) is Ok,
        (step(s, line)->Ok_0).welded.tokens.len() <= u32::MAX,
        (step(s, line)->Ok_0).welded.indices.len() <= u32::MAX,
    ensures
        (step(s, line)->Ok_0).welded.wf(),
        (step(s, line)->Ok_0).welded.resolves(s.attributes),
{
    let cs = face(line.skip(2))->Ok_0;
    let sent = fan(cs);
    assert((step(s, line)->Ok_0).welded == weld_all(s.welded, sent, s.attributes)->Ok_0);
    assert((step(s, line)->Ok_0).welded.wf()) by {
        lemma_weld_all_keeps_wf(s.welded, sent, s.attributes);
    }
    assert((step(s, line)->Ok_0).welded.resolves(s.attributes)) by {
        lemma_face_len(line.skip(2));
        lemma_face_corners_are_genuine(line.skip(2));
        assert forall|j: int| 0 <= j < sent.len() implies corner(#[trigger] sent[j].id) == Ok::<
            CornerView,
            ErrorKind,
        >(sent[j]) by {
            assert(corner(cs[0].id) == Ok::<CornerView, ErrorKind>(cs[0]));
            assert(corner(cs[1].id) == Ok::<CornerView, ErrorKind>(cs[1]));
            assert(corner(cs[2].id) == Ok::<CornerView, ErrorKind>(cs[2]));
            if cs.len() == 4 {
                assert(corner(cs[3].id) == Ok::<CornerView, ErrorKind>(cs[3]));
            }
        }
        lemma_weld_all_keeps_resolved(s.welded, sent, s.attributes);
    }
}

/// A line keeps the state well-formed, as long as the table and the index
/// stream fit 32 bits.
pub proof fn lemma_step_keeps_wf(s: Scan, line: Seq<u8>)
    requires
        s.wf(),
        step(s, line) is Ok,
        (step(s, line)->Ok_0).welded.tokens.len() <= u32::MAX,
        (step(s, line)->Ok_0).welded.indices.len() <= u32::MAX,
    ensures
        (step(s, line)->Ok_0).wf(),
{
    let t = step(s, line)->Ok_0;
    lemma_step_extends(s, line);
    match classify(line) {
        LineKind::Object => {
            if s.welded.indices.len() > 0 {
                lemma_close_keeps_offsets(s.meshes, s.welded.indices.len());
                if s.meshes.len() == 0 {
                    assert(extent_sum(s.meshes) == 0);
                    assert(t.meshes[0] == closing_mesh(s.meshes, s.welded.indices.len()));
                } else {
                    assert(t.meshes[0] == s.meshes[0]);
                }
            }
        },
        LineKind::Face => {
            lemma_face_line_keeps_wf(s, line);
            assert(t.attributes == s.attributes);
            assert(t.meshes == s.meshes);
        },
        LineKind::Other => {},
        LineKind::Position => {
            lemma_numbers_are_numeric(line.skip(2), 3);
            lemma_attribute_line_keeps_wf(s, t);
        },
        LineKind::TexCoord => {
            lemma_numbers_are_numeric(line.skip(3), 2);
            lemma_attribute_line_keeps_wf(s, t);
        },
        LineKind::Normal => {
            lemma_numbers_are_numeric(line.skip(3), 3);
            lemma_attribute_line_keeps_wf(s, t);
        },
    }
}

/// A run of lines keeps the state well-formed, as long as the table and
/// the index stream fit 32 bits.
pub proof fn lemma_scan_keeps_wf(s: Scan, lines: Seq<Seq<u8>>)
    requires
        s.wf(),
        scan(s, lines) is Ok,
        (scan(s, lines)->Ok_0).welded.tokens.len() <= u32::MAX,
        (scan(s, lines)->Ok_0).welded.indices.len() <= u32::MAX,
    ensures
        (scan(s, lines)->Ok_0).wf(),
    decreases lines.len(),
{
    if lines.len() > 0 {
        let u = scan(s, lines.drop_last())->Ok_0;
        lemma_step_growth(u, lines.last());
        lemma_scan_keeps_wf(s, lines.drop_last());
        lemma_step_keeps_wf(u, lines.last());
    }
}

/// What object text of fewer than `2^32` bytes denotes is well-formed:
/// every index is a table position, no token has two vertices, every
/// vertex is made of the attributes that its token names, and every mesh
/// starts at the offset that the meshes before it give.
pub proof fn lemma_parse_object_wf(text: Seq<u8>)
    requires
        text.len() <= u32::MAX,
        parse_object(text) is Ok,
    ensures
        (parse_object(text)->Ok_0).wf(),
{
    let lines = split(text, NEWLINE);
    let s = scan(Scan::empty(), lines)->Ok_0;
    lemma_split_joined_len(text, NEWLINE);
    lemma_scan_growth(Scan::empty(), lines);
    lemma_scan_keeps_wf(Scan::empty(), lines);
    lemma_close_keeps_offsets(s.meshes, s.welded.indices.len());
    if s.meshes.len() == 0 {
        assert(s.close().meshes[0] == closing_mesh(s.meshes, s.welded.indices.len()));
        assert(extent_sum(s.meshes) == 0);
    } else {
        assert(s.close().meshes[0] == s.meshes[0]);
    }
}

/// Every vertex of object text of fewer than `2^32` bytes is made of
/// numeric literals: three for the position, two for the texture
/// coordinate and three for the normal.
pub proof fn lemma_vertices_are_numeric(text: Seq<u8>)
    requires
        text.len() <= u32::MAX,
        parse_object(text) is Ok,
    ensures
        forall|i: int|
            0 <= i < (parse_object(text)->Ok_0).welded.vertices.len() ==> (#[trigger] (parse_object(
                text,
            )->Ok_0).welded.vertices[i]).numeric(),
{
    let parsed = parse_object(text)->Ok_0;
    lemma_parse_object_wf(text);
    lemma_resolved_vertices_are_numeric(parsed.welded, parsed.attributes);
}

/// The meshes of object text of fewer than `2^32` bytes with one or two
/// objects partition the index stream: the first mesh starts at zero, the
/// second starts where the first ends, and the last ends where the index
/// stream ends.
pub proof fn lemma_up_to_two_meshes_partition(text: Seq<u8>)
    requires
        text.len() <= u32::MAX,
        parse_object(text) is Ok,
        (parse_object(text)->Ok_0).meshes.len() <= 2,
    ensures
        ({
            let parsed = parse_object(text)->Ok_0;
            let meshes = parsed.meshes;
            &&& meshes.len() >= 1
            &&& meshes[0].offset == 0
            &&& meshes.len() == 2 ==> meshes[1].offset == meshes[0].len
            &&& meshes.last().offset + meshes.last().len == parsed.welded.indices.len()
        }),
{
    let lines = split(text, NEWLINE);
    let s = scan(Scan::empty(), lines)->Ok_0;
    let count = s.welded.indices.len();
    lemma_split_joined_len(text, NEWLINE);
    lemma_scan_growth(Scan::empty(), lines);
    lemma_scan_keeps_wf(Scan::empty(), lines);
    lemma_first_two_offsets(s.meshes);
    assert(s.close().meshes.last() == closing_mesh(s.meshes, count));
    if s.meshes.len() == 0 {
        assert(extent_sum(s.meshes) == 0);
    } else {
        assert(s.meshes.drop_last() =~= Seq::<Mesh>::empty());
        assert(extent_sum(s.meshes.drop_last()) == 0);
        assert(s.close().meshes[0] == s.meshes[0]);
        assert(s.close().meshes[1] == closing_mesh(s.meshes, count));
    }
}

/// Reads object text given as bytes.
fn read_object(text: &[u8]) -> (r: Result<(Model, Vec<VertexRaw>, Vec<u32>), ParseError>)
    requires
        text@.len() <= u32::MAX,
    ensures
        match parse_object(text@) {
            Ok(s) => r matches Ok(out) && out.0@ == s.meshes && views(out.1@) == s.welded.vertices
                && out.2@ == s.welded.indices,
            Err(e) => r matches Err(x) && x == e,
        },
{
    let lines = split_bytes(text, NEWLINE);
    let ghost ls = split(text@, NEWLINE);
    let mut scanner = ObjectScanner::new();
    let mut i: usize = 0;
    proof {
        lemma_split_joined_len(text@, NEWLINE);
        assert(ls.take(0) =~= Seq::<Seq<u8>>::empty());
    }
    while i < lines.len()
        invariant
            i <= lines@.len(),
            rows(lines@) == ls,
            ls == split(text@, NEWLINE),
            text@.len() <= u32::MAX,
            joined_len(ls) == text@.len() + 1,
            scan(Scan::empty(), ls.take(i as int)) == Ok::<Scan, ParseError>(scanner@),
            2 * scanner.verticies@.len() <= joined_len(ls.take(i as int)),
        decreases lines@.len() - i,
    {
        let ghost before = scanner@;
        proof {
            lemma_joined_len_take(ls, i as int);
            lemma_joined_len_take(ls, i + 1);
            lemma_scan_step(Scan::empty(), ls, i as int);
            assert(ls[i as int] == lines@[i as int]@);
            assert(before.welded.tokens.len() == scanner.verticies@.len());
        }
        match scanner.add_line(lines[i].as_slice()) {
            Ok(()) => {
                proof {
                    lemma_step_growth(before, ls[i as int]);
                    assert(scanner@.welded.tokens.len() == scanner.verticies@.len());
                }
            },
            Err(kind) => {
                proof {
                    lemma_scan_error_persists(Scan::empty(), ls, i + 1);
                }
                return Err(ParseError { kind, line: i });
            },
        }
        i += 1;
    }
    proof {
        assert(ls.take(i as int) =~= ls);
    }
    scanner.close();
    Ok(scanner.finish())
}

/// Reads object text: see [`parse_object`] for what it denotes.
///
/// On success the result holds the meshes, the welded vertices in table
/// order, and the index stream. On failure it names the first line that
/// was rejected and says why; nothing else is returned.
///
/// Table positions are 32-bit, so the text has to be shorter than `2^32`
/// bytes.
pub fn parse_wavefront_object(data: String) -> (r: Result<
    (Model, Vec<VertexRaw>, Vec<u32>),
    ParseError,
>)
    requires
        encode_utf8(data@).len() <= u32::MAX,
    ensures
        match parse_object(encode_utf8(data@)) {
            Ok(s) => r matches Ok(out) && out.0@ == s.meshes && views(out.1@) == s.welded.vertices
                && out.2@ == s.welded.indices,
            Err(e) => r matches Err(x) && x == e,
        },
{
    read_object(data.as_str().as_bytes())
}

/// Reads object text of any length: like [`parse_wavefront_object`] where
/// the text is shorter than `2^32` bytes, and `None` where it is not.
pub fn try_parse_wavefront_object(data: String) -> (r: Option<
    Result<(Model, Vec<VertexRaw>, Vec<u32>), ParseError>,
>)
    ensures
        r is Some <==> encode_utf8(data@).len() <= u32::MAX,
        r matches Some(parsed) ==> (match parse_object(encode_utf8(data@)) {
            Ok(s) => parsed matches Ok(out) && out.0@ == s.meshes && views(out.1@)
                == s.welded.vertices && out.2@ == s.welded.indices,
            Err(e) => parsed matches Err(x) && x == e,
        }),
{
    if data.as_str().as_bytes().len() > u32::MAX as usize {
        None
    } else {
        Some(parse_wavefront_object(data))
    }
}

} // verus!
