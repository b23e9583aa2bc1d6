//! The values that geometry text is made of.
//!
//! Real numbers are carried as the literals they were written as (see
//! [`Scalar`]); everything else is plain integers.

use crate::model::error::ErrorKind;
use crate::model::number::{is_number, is_number_text, lemma_digit_is_number};
use crate::model::text::{copy_range, rows, split_words, words};
use vstd::prelude::*;

verus! {

/// The views of the elements of a sequence.
pub open spec fn views<T: View>(v: Seq<T>) -> Seq<T::V> {
    Seq::new(v.len(), |i: int| v[i]@)
}

/// A real number, kept as the literal that denotes it.
#[derive(Debug, PartialEq, Eq)]
pub struct Scalar {
    pub text: Vec<u8>,
}

impl View for Scalar {
    type V = Seq<u8>;

    open spec fn view(&self) -> Seq<u8> {
        self.text@
    }
}

impl Clone for Scalar {
    fn clone(&self) -> (r: Self)
        ensures
            r@ == self@,
    {
        let text = copy_range(self.text.as_slice(), 0, self.text.len());
        assert(self.text@.subrange(0, self.text@.len() as int) =~= self.text@);
        Scalar { text }
    }
}

impl Scalar {
    /// The literal `0`.
    pub open spec fn zero_text() -> Seq<u8> {
        seq![48u8]
    }

    /// The literal `1`.
    pub open spec fn one_text() -> Seq<u8> {
        seq![49u8]
    }

    /// Whether the text is a numeric literal.
    pub open spec fn wf(&self) -> bool {
        is_number(self@)
    }

    /// Zero.
    pub fn zero() -> (r: Scalar)
        ensures
            r@ == Self::zero_text(),
            r.wf(),
    {
        let mut text: Vec<u8> = Vec::new();
        text.push(48);
        assert(text@ =~= Self::zero_text());
        proof {
            lemma_digit_is_number(48);
        }
        Scalar { text }
    }

    /// One.
    pub fn one() -> (r: Scalar)
        ensures
            r@ == Self::one_text(),
            r.wf(),
    {
        let mut text: Vec<u8> = Vec::new();
        text.push(49);
        assert(text@ =~= Self::one_text());
        proof {
            lemma_digit_is_number(49);
        }
        Scalar { text }
    }

    /// Accepts `word` if and only if it is a numeric literal, and keeps it
    /// as written.
    pub fn parse(word: &[u8]) -> (r: Result<Scalar, ErrorKind>)
        ensures
            is_number(word@) ==> (r matches Ok(v) && v@ == word@ && v.wf()),
            !is_number(word@) ==> (r matches Err(e) && e == ErrorKind::MalformedNumber),
    {
        if is_number_text(word) {
            let text = copy_range(word, 0, word.len());
            assert(word@.subrange(0, word@.len() as int) =~= word@);
            Ok(Scalar { text })
        } else {
            Err(ErrorKind::MalformedNumber)
        }
    }
}

/// Whether `v` lists `n` numeric literals.
pub open spec fn numeric(v: Seq<Seq<u8>>, n: int) -> bool {
    v.len() == n && all_numbers(v)
}

/// Three real numbers. Its view lists them in the order `x`, `y`, `z`.
#[derive(Debug, PartialEq, Eq)]
pub struct Vector3 {
    pub x: Scalar,
    pub y: Scalar,
    pub z: Scalar,
}

impl View for Vector3 {
    type V = Seq<Seq<u8>>;

    open spec fn view(&self) -> Seq<Seq<u8>> {
        seq![self.x@, self.y@, self.z@]
    }
}

impl Clone for Vector3 {
    fn clone(&self) -> (r: Self)
        ensures
            r@ == self@,
    {
        Vector3 { x: self.x.clone(), y: self.y.clone(), z: self.z.clone() }
    }
}

/// Two real numbers. Its view lists them in the order `x`, `y`.
#[derive(Debug, PartialEq, Eq)]
pub struct Vector2 {
    pub x: Scalar,
    pub y: Scalar,
}

impl View for Vector2 {
    type V = Seq<Seq<u8>>;

    open spec fn view(&self) -> Seq<Seq<u8>> {
        seq![self.x@, self.y@]
    }
}

impl Clone for Vector2 {
    fn clone(&self) -> (r: Self)
        ensures
            r@ == self@,
    {
        Vector2 { x: self.x.clone(), y: self.y.clone() }
    }
}

/// Whether every word is a numeric literal.
pub open spec fn all_numbers(w: Seq<Seq<u8>>) -> bool {
    forall|i: int| 0 <= i < w.len() ==> is_number(#[trigger] w[i])
}

/// The first `n` numeric fields of `text`.
///
/// The fields are the whitespace-delimited words of `text`. Every one of
/// them has to be a numeric literal, also those after the `n`-th, and there
/// have to be at least `n`.
pub open spec fn numbers(text: Seq<u8>, n: int) -> Result<Seq<Seq<u8>>, ErrorKind> {
    let w = words(text);
    if all_numbers(w) && w.len() >= n {
        Ok(w.take(n))
    } else {
        Err(ErrorKind::MalformedNumber)
    }
}

/// What `numbers` finds is `n` numeric literals.
pub proof fn lemma_numbers_are_numeric(text: Seq<u8>, n: int)
    requires
        0 <= n,
        numbers(text, n) is Ok,
    ensures
        numeric(numbers(text, n)->Ok_0, n),
{
    let w = words(text);
    let v = numbers(text, n)->Ok_0;
    assert forall|i: int| 0 <= i < v.len() implies is_number(#[trigger] v[i]) by {
        assert(v[i] == w[i]);
    }
}

/// Reads the first `n` numeric fields of `text`; see [`numbers`].
fn read_numbers(text: &[u8], n: usize) -> (r: Result<Vec<Scalar>, ErrorKind>)
    ensures
        match numbers(text@, n as int) {
            Ok(v) => r matches Ok(found) && views(found@) == v,
            Err(k) => r matches Err(e) && e == k,
        },
{
    let fields = split_words(text);
    let ghost w = words(text@);
    let mut found: Vec<Scalar> = Vec::new();
    let mut i: usize = 0;
    while i < fields.len()
        invariant
            i <= fields@.len(),
            rows(fields@) == w,
            w == words(text@),
            forall|k: int| 0 <= k < i ==> is_number(#[trigger] w[k]),
            found@.len() == (if i <= n { i } else { n }),
            views(found@) == w.take(found@.len() as int),
        decreases fields@.len() - i,
    {
        assert(w[i as int] == fields@[i as int]@);
        match Scalar::parse(fields[i].as_slice()) {
            Ok(v) => {
                if i < n {
                    proof {
                        assert(views(found@.push(v)) =~= w.take(found@.len() as int + 1));
                    }
                    found.push(v);
                }
            },
            Err(e) => {
                return Err(e);
            },
        }
        i += 1;
    }
    if found.len() < n {
        Err(ErrorKind::MalformedNumber)
    } else {
        Ok(found)
    }
}

/// Reads a triple of real numbers from the text that follows a line prefix.
pub fn parse_into_vec3f32(text: &[u8]) -> (r: Result<Vector3, ErrorKind>)
    ensures
        match numbers(text@, 3) {
            Ok(v) => r matches Ok(p) && p@ == v,
            Err(k) => r matches Err(e) && e == k,
        },
        r matches Ok(p) ==> numeric(p@, 3),
{
    proof {
        if numbers(text@, 3) is Ok {
            lemma_numbers_are_numeric(text@, 3);
        }
    }
    match read_numbers(text, 3) {
        Ok(found) => {
            let mut found = found;
            let ghost all = views(found@);
            assert(all.len() == found@.len() && all == words(text@).take(3));
            assert(all[0] == found@[0]@ && all[1] == found@[1]@ && all[2] == found@[2]@);
            let z = found.pop().unwrap();
            let y = found.pop().unwrap();
            let x = found.pop().unwrap();
            let p = Vector3 { x, y, z };
            assert(p@ =~= all);
            Ok(p)
        },
        Err(e) => Err(e),
    }
}

/// Reads a pair of real numbers from the text that follows a line prefix.
pub fn parse_into_vec2f32(text: &[u8]) -> (r: Result<Vector2, ErrorKind>)
    ensures
        match numbers(text@, 2) {
            Ok(v) => r matches Ok(p) && p@ == v,
            Err(k) => r matches Err(e) && e == k,
        },
        r matches Ok(p) ==> numeric(p@, 2),
{
    proof {
        if numbers(text@, 2) is Ok {
            lemma_numbers_are_numeric(text@, 2);
        }
    }
    match read_numbers(text, 2) {
        Ok(found) => {
            let mut found = found;
            let ghost all = views(found@);
            assert(all.len() == found@.len() && all == words(text@).take(2));
            assert(all[0] == found@[0]@ && all[1] == found@[1]@);
            let y = found.pop().unwrap();
            let x = found.pop().unwrap();
            let p = Vector2 { x, y };
            assert(p@ =~= all);
            Ok(p)
        },
        Err(e) => Err(e),
    }
}

/// What a vertex holds, as a value.
pub struct VertexView {
    pub position: Seq<Seq<u8>>,
    pub uvs: Seq<Seq<u8>>,
    pub normals: Seq<Seq<u8>>,
}

impl VertexView {
    /// Whether the vertex is made of numeric literals: three for the
    /// position, two for the texture coordinate, three for the normal.
    pub open spec fn numeric(self) -> bool {
        numeric(self.position, 3) && numeric(self.uvs, 2) && numeric(self.normals, 3)
    }
}

/// A vertex with its attributes resolved: no indices are left in it.
#[derive(Debug, PartialEq, Eq)]
pub struct VertexRaw {
    pub position: Vector3,
    pub uvs: Vector2,
    pub normals: Vector3,
}

impl View for VertexRaw {
    type V = VertexView;

    open spec fn view(&self) -> VertexView {
        VertexView { position: self.position@, uvs: self.uvs@, normals: self.normals@ }
    }
}

impl Clone for VertexRaw {
    fn clone(&self) -> (r: Self)
        ensures
            r@ == self@,
    {
        VertexRaw {
            position: self.position.clone(),
            uvs: self.uvs.clone(),
            normals: self.normals.clone(),
        }
    }
}

/// A run of the index stream that belongs to one object.
#[derive(Clone, Copy, Debug, PartialEq, Eq, Structural)]
pub struct Mesh {
    pub offset: u32,
    pub len: u32,
}

/// The objects of one file, in the order in which they were closed.
#[derive(Debug, PartialEq, Eq)]
pub struct Model {
    pub meshes: Vec<Mesh>,
}

impl View for Model {
    type V = Seq<Mesh>;

    open spec fn view(&self) -> Seq<Mesh> {
        self.meshes@
    }
}

} // verus!
