use webgpu::model::error::{ErrorKind, ParseError};
use webgpu::model::geometry::{Scalar, Vector3};
use webgpu::model::material::{add_material_line, parse_wavefront_material, Material};

fn scalar(s: &Scalar) -> f32 {
    std::str::from_utf8(&s.text).unwrap().parse::<f32>().unwrap()
}

fn colour(v: &Vector3) -> (f32, f32, f32) {
    (scalar(&v.x), scalar(&v.y), scalar(&v.z))
}

#[test]
fn diffuse_line_sets_only_the_diffuse_colour() {
    let material = parse_wavefront_material("Kd 0.2 0.4 0.6\n".to_string()).unwrap();
    assert_eq!(colour(&material.ambient), (0.0, 0.0, 0.0));
    assert_eq!(colour(&material.diffuse), (0.2, 0.4, 0.6));
    assert_eq!(colour(&material.specular), (1.0, 1.0, 1.0));
}

#[test]
fn empty_material_text_yields_the_defaults() {
    let material = parse_wavefront_material(String::new()).unwrap();
    assert_eq!(colour(&material.ambient), (0.0, 0.0, 0.0));
    assert_eq!(colour(&material.diffuse), (1.0, 0.0, 0.0));
    assert_eq!(colour(&material.specular), (1.0, 1.0, 1.0));
    assert_eq!(material, Material::default());
}

#[test]
fn all_three_colours_are_read() {
    let text = "newmtl m\nNs 96.0\nKa 0.1 0.2 0.3\nKd 0.4 0.5 0.6\nKs 0.7 0.8 0.9\nKe 1 1 1\nd 1.0\n";
    let material = parse_wavefront_material(text.to_string()).unwrap();
    assert_eq!(colour(&material.ambient), (0.1, 0.2, 0.3));
    assert_eq!(colour(&material.diffuse), (0.4, 0.5, 0.6));
    assert_eq!(colour(&material.specular), (0.7, 0.8, 0.9));
}

#[test]
fn later_colour_line_wins() {
    let material = parse_wavefront_material("Ks 0 0 0\nKs 0.5 0.5 0.5".to_string()).unwrap();
    assert_eq!(colour(&material.specular), (0.5, 0.5, 0.5));
}

#[test]
fn malformed_colour_is_reported_with_its_line() {
    let r = parse_wavefront_material("Ka 0 0 0\n# c\nKd 0.2 0.4\n".to_string());
    assert_eq!(r.unwrap_err(), ParseError { kind: ErrorKind::MalformedNumber, line: 2 });
    let r = parse_wavefront_material("Ks 1 one 1\n".to_string());
    assert_eq!(r.unwrap_err(), ParseError { kind: ErrorKind::MalformedNumber, line: 0 });
}

#[test]
fn rejected_colour_line_leaves_the_material_untouched() {
    let mut material = Material::default();
    add_material_line(&mut material, b"Kd 0.2 0.4 0.6").unwrap();
    assert_eq!(add_material_line(&mut material, b"Kd 0.9 oops"), Err(ErrorKind::MalformedNumber));
    assert_eq!(colour(&material.diffuse), (0.2, 0.4, 0.6));
    assert_eq!(add_material_line(&mut material, b"Kx 1 2 3"), Ok(()));
    assert_eq!(colour(&material.diffuse), (0.2, 0.4, 0.6));
}
