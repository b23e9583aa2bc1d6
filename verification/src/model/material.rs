//! Material text: the ambient, diffuse and specular colour of a surface.

use crate::model::error::{ErrorKind, ParseError};
use crate::model::geometry::{
    lemma_numbers_are_numeric, numbers, numeric, parse_into_vec3f32, Scalar, Vector3,
};
use crate::model::number::lemma_digit_is_number;
use crate::model::text::{has_prefix, rows, split, split_bytes, starts_with, NEWLINE};
use vstd::prelude::*;
use vstd::slice::slice_subrange;
use vstd::utf8::encode_utf8;

verus! {

/// What a material holds, as a value.
pub struct MaterialView {
    pub ambient: Seq<Seq<u8>>,
    pub diffuse: Seq<Seq<u8>>,
    pub specular: Seq<Seq<u8>>,
}

/// Three colours, each a triple of red, green and blue.
#[derive(Debug, PartialEq, Eq)]
pub struct Material {
    pub ambient: Vector3,
    pub diffuse: Vector3,
    pub specular: Vector3,
}

impl View for Material {
    type V = MaterialView;

    open spec fn view(&self) -> MaterialView {
        MaterialView { ambient: self.ambient@, diffuse: self.diffuse@, specular: self.specular@ }
    }
}

impl MaterialView {
    /// Whether each colour is made of three numeric literals.
    pub open spec fn numeric(self) -> bool {
        numeric(self.ambient, 3) && numeric(self.diffuse, 3) && numeric(self.specular, 3)
    }
}

/// The material of a text that sets nothing: black ambient, red diffuse
/// and white specular colour.
pub open spec fn default_material() -> MaterialView {
    MaterialView {
        ambient: seq![Scalar::zero_text(), Scalar::zero_text(), Scalar::zero_text()],
        diffuse: seq![Scalar::one_text(), Scalar::zero_text(), Scalar::zero_text()],
        specular: seq![Scalar::one_text(), Scalar::one_text(), Scalar::one_text()],
    }
}

impl Default for Material {
    fn default() -> (m: Self)
        ensures
            m@ == default_material(),
    {
        let m = Material {
            ambient: Vector3 { x: Scalar::zero(), y: Scalar::zero(), z: Scalar::zero() },
            diffuse: Vector3 { x: Scalar::one(), y: Scalar::zero(), z: Scalar::zero() },
            specular: Vector3 { x: Scalar::one(), y: Scalar::one(), z: Scalar::one() },
        };
        proof {
            assert(m@.ambient =~= default_material().ambient);
            assert(m@.diffuse =~= default_material().diffuse);
            assert(m@.specular =~= default_material().specular);
        }
        m
    }
}

/// `Ka` and a space.
pub open spec fn ambient_prefix() -> Seq<u8> {
    seq![75u8, 97u8, 32u8]
}

/// `Kd` and a space.
pub open spec fn diffuse_prefix() -> Seq<u8> {
    seq![75u8, 100u8, 32u8]
}

/// `Ks` and a space.
pub open spec fn specular_prefix() -> Seq<u8> {
    seq![75u8, 115u8, 32u8]
}

/// What one line does: a colour line replaces the colour it names with
/// the triple that follows the prefix, and any other line does nothing.
pub open spec fn material_step(m: MaterialView, line: Seq<u8>) -> Result<MaterialView, ErrorKind> {
    if has_prefix(line, ambient_prefix()) {
        match numbers(line.skip(3), 3) {
            Ok(v) => Ok(MaterialView { ambient: v, ..m }),
            Err(k) => Err(k),
        }
    } else if has_prefix(line, diffuse_prefix()) {
        match numbers(line.skip(3), 3) {
            Ok(v) => Ok(MaterialView { diffuse: v, ..m }),
            Err(k) => Err(k),
        }
    } else if has_prefix(line, specular_prefix()) {
        match numbers(line.skip(3), 3) {
            Ok(v) => Ok(MaterialView { specular: v, ..m }),
            Err(k) => Err(k),
        }
    } else {
        Ok(m)
    }
}

/// What a run of lines does, from a given material: each line in turn, up
/// to the first that is rejected, which is reported with its number.
pub open spec fn material_scan(m: MaterialView, lines: Seq<Seq<u8>>) -> Result<
    MaterialView,
    ParseError,
>
    decreases lines.len(),
{
    if lines.len() == 0 {
        Ok(m)
    } else {
        match material_scan(m, lines.drop_last()) {
            Ok(t) => match material_step(t, lines.last()) {
                Ok(u) => Ok(u),
                Err(k) => Err(ParseError { kind: k, line: (lines.len() - 1) as usize }),
            },
            Err(e) => Err(e),
        }
    }
}

/// What material text denotes: its lines are read in order, starting from
/// the default material.
pub open spec fn parse_material(text: Seq<u8>) -> Result<MaterialView, ParseError> {
    material_scan(default_material(), split(text, NEWLINE))
}

/// The first rejected line is rejected whatever follows it.
pub proof fn lemma_material_error_persists(m: MaterialView, lines: Seq<Seq<u8>>, n: int)
    requires
        0 <= n <= lines.len(),
        material_scan(m, lines.take(n)) is Err,
    ensures
        material_scan(m, lines) == material_scan(m, lines.take(n)),
    decreases lines.len(),
{
    if n < lines.len() {
        assert(lines.drop_last().take(n) =~= lines.take(n));
        lemma_material_error_persists(m, lines.drop_last(), n);
    } else {
        assert(lines.take(n) =~= lines);
    }
}

/// Every colour of a material that was read is made of three numeric
/// literals, whether the text set it or not.
pub proof fn lemma_material_is_numeric(text: Seq<u8>)
    requires
        parse_material(text) is Ok,
    ensures
        (parse_material(text)->Ok_0).numeric(),
{
    lemma_digit_is_number(48);
    lemma_digit_is_number(49);
    lemma_material_scan_is_numeric(default_material(), split(text, NEWLINE));
}

/// A run of lines keeps the colours numeric.
proof fn lemma_material_scan_is_numeric(m: MaterialView, lines: Seq<Seq<u8>>)
    requires
        m.numeric(),
        material_scan(m, lines) is Ok,
    ensures
        (material_scan(m, lines)->Ok_0).numeric(),
    decreases lines.len(),
{
    if lines.len() > 0 {
        let u = material_scan(m, lines.drop_last())->Ok_0;
        lemma_material_scan_is_numeric(m, lines.drop_last());
        if numbers(lines.last().skip(3), 3) is Ok {
            lemma_numbers_are_numeric(lines.last().skip(3), 3);
        }
    }
}

/// Reads one line into `material`; see [`material_step`]. A line that is
/// rejected changes nothing.
pub fn add_material_line(material: &mut Material, line: &[u8]) -> (r: Result<(), ErrorKind>)
    ensures
        match material_step(old(material)@, line@) {
            Ok(m) => r is Ok && final(material)@ == m,
            Err(k) => r matches Err(e) && e == k && final(material)@ == old(material)@,
        },
{
    let ambient: [u8; 3] = [75, 97, 32];
    let diffuse: [u8; 3] = [75, 100, 32];
    let specular: [u8; 3] = [75, 115, 32];
    proof {
        assert(ambient@ =~= ambient_prefix());
        assert(diffuse@ =~= diffuse_prefix());
        assert(specular@ =~= specular_prefix());
    }
    if starts_with(line, ambient.as_slice()) {
        match parse_into_vec3f32(slice_subrange(line, 3, line.len())) {
            Ok(v) => {
                material.ambient = v;
                Ok(())
            },
            Err(e) => Err(e),
        }
    } else if starts_with(line, diffuse.as_slice()) {
        match parse_into_vec3f32(slice_subrange(line, 3, line.len())) {
            Ok(v) => {
                material.diffuse = v;
                Ok(())
            },
            Err(e) => Err(e),
        }
    } else if starts_with(line, specular.as_slice()) {
        match parse_into_vec3f32(slice_subrange(line, 3, line.len())) {
            Ok(v) => {
                material.specular = v;
                Ok(())
            },
            Err(e) => Err(e),
        }
    } else {
        Ok(())
    }
}

/// Reads material text: see [`parse_material`] for what it denotes.
///
/// On failure the result names the first line that was rejected and says
/// why.
pub fn parse_wavefront_material(data: String) -> (r: Result<Material, ParseError>)
    ensures
        match parse_material(encode_utf8(data@)) {
            Ok(m) => r matches Ok(out) && out@ == m,
            Err(e) => r matches Err(x) && x == e,
        },
{
    let text = data.as_str().as_bytes();
    let lines = split_bytes(text, NEWLINE);
    let ghost ls = split(text@, NEWLINE);
    let mut material = Material::default();
    let mut i: usize = 0;
    proof {
        assert(ls.take(0) =~= Seq::<Seq<u8>>::empty());
    }
    while i < lines.len()
        invariant
            i <= lines@.len(),
            rows(lines@) == ls,
            ls == split(encode_utf8(data@), NEWLINE),
            material_scan(default_material(), ls.take(i as int)) == Ok::<MaterialView, ParseError>(
                material@,
            ),
        decreases lines@.len() - i,
    {
        proof {
            assert(ls.take(i + 1).drop_last() =~= ls.take(i as int));
            assert(ls.take(i + 1).last() == ls[i as int]);
            assert(ls[i as int] == lines@[i as int]@);
        }
        match add_material_line(&mut material, lines[i].as_slice()) {
            Ok(()) => {},
            Err(kind) => {
                proof {
                    lemma_material_error_persists(default_material(), ls, i + 1);
                }
                return Err(ParseError { kind, line: i });
            },
        }
        i += 1;
    }
    proof {
        assert(ls.take(i as int) =~= ls);
    }
    Ok(material)
}

} // verus!
