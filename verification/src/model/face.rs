//! Face lines: corners, and the triangles and quads made of them.

use crate::model::error::ErrorKind;
use crate::model::geometry::{views, Vector2, Vector3, VertexRaw, VertexView};
use crate::model::number::{capped, is_unsigned, parse_unsigned, unsigned_value};
use crate::model::text::{
    copy_range, lemma_words_need_room, rows, split, split_bytes, split_words, words, SLASH,
};
use vstd::prelude::*;

verus! {

/// What a corner holds, as a value.
pub struct CornerView {
    pub id: Seq<u8>,
    pub position: usize,
    pub uv: usize,
    pub normal: usize,
}

/// One corner of a face: the token it was written as, which identifies it,
/// and the three zero-based indices the token names.
#[derive(Debug, PartialEq, Eq)]
pub struct FaceIndices {
    pub id: Vec<u8>,
    pub position: usize,
    pub normal: usize,
    pub uv: usize,
}

impl View for FaceIndices {
    type V = CornerView;

    open spec fn view(&self) -> CornerView {
        CornerView { id: self.id@, position: self.position, uv: self.uv, normal: self.normal }
    }
}

impl Clone for FaceIndices {
    fn clone(&self) -> (r: Self)
        ensures
            r@ == self@,
    {
        let id = copy_range(self.id.as_slice(), 0, self.id.len());
        assert(self.id@.subrange(0, self.id@.len() as int) =~= self.id@);
        FaceIndices { id, position: self.position, normal: self.normal, uv: self.uv }
    }
}

/// Whether every component is an unsigned integer literal.
pub open spec fn all_unsigned(parts: Seq<Seq<u8>>) -> bool {
    forall|i: int| 0 <= i < parts.len() ==> is_unsigned(#[trigger] parts[i])
}

/// The zero-based index that the one-based literal `part` names. An index
/// too large for the machine word is `usize::MAX`, which lies beyond every
/// sequence.
pub open spec fn zero_based(part: Seq<u8>) -> usize {
    capped((unsigned_value(part) - 1) as nat, usize::MAX as nat) as usize
}

/// The corner that `token` denotes.
///
/// A token is `position/texcoord/normal`. Its first three components have
/// to be present; every component, also one after the third, has to be an
/// unsigned integer; and the first three count from one.
pub open spec fn corner(token: Seq<u8>) -> Result<CornerView, ErrorKind> {
    let parts = split(token, SLASH);
    if parts.len() < 3 || parts[0].len() == 0 || parts[1].len() == 0 || parts[2].len() == 0 {
        Err(ErrorKind::MalformedFaceCorner)
    } else if !all_unsigned(parts) {
        Err(ErrorKind::MalformedNumber)
    } else if unsigned_value(parts[0]) == 0 || unsigned_value(parts[1]) == 0 || unsigned_value(
        parts[2],
    ) == 0 {
        Err(ErrorKind::IndexOutOfRange)
    } else {
        Ok(
            CornerView {
                id: token,
                position: zero_based(parts[0]),
                uv: zero_based(parts[1]),
                normal: zero_based(parts[2]),
            },
        )
    }
}

/// The zero-based index for a one-based value read by `parse_unsigned`.
fn to_zero_based(v: u128, Ghost(part): Ghost<Seq<u8>>) -> (r: usize)
    requires
        v == capped(unsigned_value(part), u128::MAX as nat),
        v > 0,
    ensures
        r == zero_based(part),
{
    let below = v - 1;
    if below < usize::MAX as u128 {
        below as usize
    } else {
        usize::MAX
    }
}

impl FaceIndices {
    /// Reads one corner token; see [`corner`].
    pub fn parse(face_str: &[u8]) -> (r: Result<FaceIndices, ErrorKind>)
        ensures
            match corner(face_str@) {
                Ok(c) => r matches Ok(f) && f@ == c,
                Err(k) => r matches Err(e) && e == k,
            },
    {
        let parts = split_bytes(face_str, SLASH);
        let ghost p = split(face_str@, SLASH);
        if parts.len() < 3 {
            return Err(ErrorKind::MalformedFaceCorner);
        }
        assert(p[0] == parts@[0]@ && p[1] == parts@[1]@ && p[2] == parts@[2]@);
        if parts[0].len() == 0 || parts[1].len() == 0 || parts[2].len() == 0 {
            return Err(ErrorKind::MalformedFaceCorner);
        }
        let mut values: Vec<u128> = Vec::new();
        let mut i: usize = 0;
        while i < parts.len()
            invariant
                i <= parts@.len(),
                rows(parts@) == p,
                p == split(face_str@, SLASH),
                p.len() >= 3 && p[0].len() > 0 && p[1].len() > 0 && p[2].len() > 0,
                values@.len() == i,
                forall|k: int| 0 <= k < i ==> is_unsigned(#[trigger] p[k]),
                forall|k: int|
                    0 <= k < i ==> #[trigger] values@[k] == capped(
                        unsigned_value(p[k]),
                        u128::MAX as nat,
                    ),
            decreases parts@.len() - i,
        {
            assert(p[i as int] == parts@[i as int]@);
            match parse_unsigned(parts[i].as_slice()) {
                Some(v) => {
                    values.push(v);
                },
                None => {
                    assert(!is_unsigned(p[i as int]));
                    return Err(ErrorKind::MalformedNumber);
                },
            }
            i += 1;
        }
        if values[0] == 0 || values[1] == 0 || values[2] == 0 {
            return Err(ErrorKind::IndexOutOfRange);
        }
        let id = copy_range(face_str, 0, face_str.len());
        assert(face_str@.subrange(0, face_str@.len() as int) =~= face_str@);
        Ok(
            FaceIndices {
                id,
                position: to_zero_based(values[0], Ghost(p[0])),
                uv: to_zero_based(values[1], Ghost(p[1])),
                normal: to_zero_based(values[2], Ghost(p[2])),
            },
        )
    }

    /// Whether the corner's three indices all name a declared attribute.
    pub open spec fn resolvable(
        c: CornerView,
        positions: Seq<Seq<Seq<u8>>>,
        normals: Seq<Seq<Seq<u8>>>,
        uvs: Seq<Seq<Seq<u8>>>,
    ) -> bool {
        c.position < positions.len() && c.normal < normals.len() && c.uv < uvs.len()
    }

    /// The vertex that a resolvable corner stands for.
    pub open spec fn resolved(
        c: CornerView,
        positions: Seq<Seq<Seq<u8>>>,
        normals: Seq<Seq<Seq<u8>>>,
        uvs: Seq<Seq<Seq<u8>>>,
    ) -> VertexView {
        VertexView {
            position: positions[c.position as int],
            uvs: uvs[c.uv as int],
            normals: normals[c.normal as int],
        }
    }

    /// Looks the corner's indices up and assembles the vertex, or reports
    /// that one of them is out of range.
    pub fn to_vertex_raw(
        &self,
        positions: &Vec<Vector3>,
        normals: &Vec<Vector3>,
        uvs: &Vec<Vector2>,
    ) -> (r: Result<VertexRaw, ErrorKind>)
        ensures
            Self::resolvable(self@, views(positions@), views(normals@), views(uvs@)) ==> (r matches Ok(
                v,
            ) && v@ == Self::resolved(self@, views(positions@), views(normals@), views(uvs@))),
            !Self::resolvable(self@, views(positions@), views(normals@), views(uvs@)) ==> (
            r matches Err(e) && e == ErrorKind::IndexOutOfRange),
    {
        if self.position < positions.len() && self.normal < normals.len() && self.uv < uvs.len() {
            Ok(
                VertexRaw {
                    position: positions[self.position].clone(),
                    uvs: uvs[self.uv].clone(),
                    normals: normals[self.normal].clone(),
                },
            )
        } else {
            Err(ErrorKind::IndexOutOfRange)
        }
    }
}

/// A face: three or four corners, in the order in which they were written.
#[derive(Debug, PartialEq, Eq)]
pub enum Face {
    Triangle(FaceIndices, FaceIndices, FaceIndices),
    Quad(FaceIndices, FaceIndices, FaceIndices, FaceIndices),
}

impl Face {
    /// The corners of the face, in order.
    pub open spec fn corners(&self) -> Seq<CornerView> {
        match self {
            Face::Triangle(a, b, c) => seq![a@, b@, c@],
            Face::Quad(a, b, c, d) => seq![a@, b@, c@, d@],
        }
    }
}

/// The corners that the tokens denote, or the error of the first token
/// that denotes none.
pub open spec fn corners(tokens: Seq<Seq<u8>>) -> Result<Seq<CornerView>, ErrorKind>
    decreases tokens.len(),
{
    if tokens.len() == 0 {
        Ok(Seq::empty())
    } else {
        match corners(tokens.drop_last()) {
            Err(k) => Err(k),
            Ok(cs) => match corner(tokens.last()) {
                Err(k) => Err(k),
                Ok(c) => Ok(cs.push(c)),
            },
        }
    }
}

/// The corners of the face that `text`, the remainder of a face line,
/// describes.
///
/// The corner tokens are the whitespace-delimited words of `text`. Their
/// number is checked first, so a face with the wrong number of corners is
/// reported as such whatever its corners look like.
pub open spec fn face(text: Seq<u8>) -> Result<Seq<CornerView>, ErrorKind> {
    let tokens = words(text);
    if tokens.len() != 3 && tokens.len() != 4 {
        Err(ErrorKind::UnsupportedFaceArity)
    } else {
        corners(tokens)
    }
}

/// Each corner is the one that its token denotes, and carries the token.
pub proof fn lemma_corners_each(tokens: Seq<Seq<u8>>)
    requires
        corners(tokens) is Ok,
    ensures
        (corners(tokens)->Ok_0).len() == tokens.len(),
        forall|i: int|
            0 <= i < tokens.len() ==> corner(tokens[i]) == Ok::<CornerView, ErrorKind>(
                #[trigger] (corners(tokens)->Ok_0)[i],
            ),
        forall|i: int| 0 <= i < tokens.len() ==> (#[trigger] (corners(tokens)->Ok_0)[i]).id == tokens[i],
    decreases tokens.len(),
{
    if tokens.len() > 0 {
        lemma_corners_each(tokens.drop_last());
        let front = corners(tokens.drop_last())->Ok_0;
        let all = corners(tokens)->Ok_0;
        assert forall|i: int| 0 <= i < tokens.len() implies corner(tokens[i]) == Ok::<
            CornerView,
            ErrorKind,
        >(#[trigger] all[i]) && all[i].id == tokens[i] by {
            if i < tokens.len() - 1 {
                assert(tokens.drop_last()[i] == tokens[i]);
                assert(all[i] == front[i]);
            }
        }
    }
}

/// A corner's index names an attribute exactly if the one-based number
/// that was written is at most the number of attributes declared: capping
/// an index at `usize::MAX` never brings it into range.
pub proof fn lemma_zero_based_in_range(part: Seq<u8>, declared: nat)
    requires
        unsigned_value(part) >= 1,
        declared <= usize::MAX,
    ensures
        zero_based(part) < declared <==> unsigned_value(part) <= declared,
{
}

/// A face has three or four corners, one per token, and its text has room
/// for them: at least two bytes per corner but for the last.
pub proof fn lemma_face_len(text: Seq<u8>)
    requires
        face(text) is Ok,
    ensures
        (face(text)->Ok_0).len() == words(text).len(),
        (face(text)->Ok_0).len() == 3 || (face(text)->Ok_0).len() == 4,
        2 * (face(text)->Ok_0).len() <= text.len() + 1,
{
    lemma_corners_each(words(text));
    lemma_words_need_room(text);
}

/// Every corner of a face is the one that its own token denotes.
pub proof fn lemma_face_corners_are_genuine(text: Seq<u8>)
    requires
        face(text) is Ok,
    ensures
        forall|j: int|
            0 <= j < (face(text)->Ok_0).len() ==> corner((#[trigger] (face(text)->Ok_0)[j]).id)
                == Ok::<CornerView, ErrorKind>((face(text)->Ok_0)[j]),
{
    let tokens = words(text);
    let cs = face(text)->Ok_0;
    lemma_corners_each(tokens);
    assert forall|j: int| 0 <= j < cs.len() implies corner((#[trigger] cs[j]).id) == Ok::<
        CornerView,
        ErrorKind,
    >(cs[j]) by {
        assert(corner(tokens[j]) == Ok::<CornerView, ErrorKind>(cs[j]));
        assert(cs[j].id == tokens[j]);
    }
}

/// The error of a prefix of the tokens is the error of all of them.
pub proof fn lemma_corners_error_persists(tokens: Seq<Seq<u8>>, n: int)
    requires
        0 <= n <= tokens.len(),
        corners(tokens.take(n)) is Err,
    ensures
        corners(tokens) == corners(tokens.take(n)),
    decreases tokens.len(),
{
    if n < tokens.len() {
        assert(tokens.drop_last().take(n) =~= tokens.take(n));
        lemma_corners_error_persists(tokens.drop_last(), n);
    } else {
        assert(tokens.take(n) =~= tokens);
    }
}

/// Reads the remainder of a face line; see [`face`].
pub fn parse_face(faces_str: &[u8]) -> (r: Result<Face, ErrorKind>)
    ensures
        match face(faces_str@) {
            Ok(cs) => r matches Ok(f) && f.corners() == cs,
            Err(k) => r matches Err(e) && e == k,
        },
{
    let tokens = split_words(faces_str);
    let ghost t = words(faces_str@);
    let n = tokens.len();
    if n != 3 && n != 4 {
        return Err(ErrorKind::UnsupportedFaceArity);
    }
    let mut faces: Vec<FaceIndices> = Vec::new();
    let mut i: usize = 0;
    proof {
        assert(t.take(0) =~= Seq::<Seq<u8>>::empty());
        assert(views(faces@) =~= Seq::<CornerView>::empty());
    }
    while i < n
        invariant
            i <= n == tokens@.len(),
            n == 3 || n == 4,
            rows(tokens@) == t,
            t == words(faces_str@),
            faces@.len() == i,
            corners(t.take(i as int)) == Ok::<Seq<CornerView>, ErrorKind>(views(faces@)),
        decreases n - i,
    {
        proof {
            assert(t[i as int] == tokens@[i as int]@);
            assert(t.take(i + 1).drop_last() =~= t.take(i as int));
            assert(t.take(i + 1).last() == t[i as int]);
            if i + 1 == n {
                assert(t.take(i + 1) =~= t);
            }
        }
        match FaceIndices::parse(tokens[i].as_slice()) {
            Ok(f) => {
                proof {
                    assert(views(faces@.push(f)) =~= views(faces@).push(f@));
                }
                faces.push(f);
            },
            Err(e) => {
                proof {
                    lemma_corners_error_persists(t, i + 1);
                }
                return Err(e);
            },
        }
        i += 1;
    }
    proof {
        assert(t.take(n as int) =~= t);
    }
    let ghost all = views(faces@);
    assert(forall|k: int| 0 <= k < n ==> all[k] == faces@[k]@);
    if n == 3 {
        let c = faces.pop().unwrap();
        let b = faces.pop().unwrap();
        let a = faces.pop().unwrap();
        let f = Face::Triangle(a, b, c);
        assert(f.corners() =~= all);
        Ok(f)
    } else {
        let d = faces.pop().unwrap();
        let c = faces.pop().unwrap();
        let b = faces.pop().unwrap();
        let a = faces.pop().unwrap();
        let f = Face::Quad(a, b, c, d);
        assert(f.corners() =~= all);
        Ok(f)
    }
}

} // verus!
