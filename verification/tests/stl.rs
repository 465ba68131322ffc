use raytracer::stl::{parse_stl, triangle_at, Bits3, StlError, StlTriangle, StlVertex};

fn record(seed: u32) -> (Vec<u8>, StlTriangle) {
    let words: Vec<u32> = (0..12).map(|k| (1.5f32 * (seed + k) as f32).to_bits()).collect();
    let mut bytes = Vec::new();
    for w in &words {
        bytes.extend_from_slice(&w.to_le_bytes());
    }
    let attribute = 0x1234u16.wrapping_add(seed as u16);
    bytes.extend_from_slice(&attribute.to_le_bytes());
    let triple = |i: usize| Bits3 { x: words[i], y: words[i + 1], z: words[i + 2] };
    (bytes, StlTriangle { normal: triple(0), v0: triple(3), v1: triple(6), v2: triple(9), attribute })
}

fn file(count: u32, seeds: &[u32]) -> (Vec<u8>, Vec<StlTriangle>) {
    let mut bytes = vec![0xAAu8; 80];
    bytes.extend_from_slice(&count.to_le_bytes());
    let mut triangles = Vec::new();
    for s in seeds {
        let (b, t) = record(*s);
        bytes.extend(b);
        triangles.push(t);
    }
    (bytes, triangles)
}

#[test]
fn reads_the_announced_triangles_in_order() {
    let (bytes, triangles) = file(3, &[1, 50, 900]);
    assert_eq!(bytes.len(), 84 + 150);
    assert_eq!(parse_stl(&bytes), Ok(triangles));
}

#[test]
fn reads_exact_words() {
    let mut bytes = vec![0u8; 80];
    bytes.extend_from_slice(&[1, 0, 0, 0]);
    bytes.extend_from_slice(&[0x00, 0x00, 0x80, 0x3F]);
    bytes.extend_from_slice(&[0x01, 0x02, 0x03, 0x04]);
    bytes.extend_from_slice(&[0xFF, 0xFF, 0xFF, 0xFF]);
    bytes.extend_from_slice(&[0u8; 36]);
    bytes.extend_from_slice(&[0xCD, 0xAB]);
    let mesh = parse_stl(&bytes).unwrap();
    assert_eq!(mesh.len(), 1);
    assert_eq!(mesh[0].normal, Bits3 { x: 0x3F80_0000, y: 0x0403_0201, z: 0xFFFF_FFFF });
    assert_eq!(f32::from_bits(mesh[0].normal.x), 1.0);
    assert_eq!(mesh[0].v0, Bits3 { x: 0, y: 0, z: 0 });
    assert_eq!(mesh[0].attribute, 0xABCD);
}

#[test]
fn an_empty_mesh_is_a_mesh() {
    let (bytes, _) = file(0, &[]);
    assert_eq!(parse_stl(&bytes), Ok(vec![]));
}

#[test]
fn ignores_what_follows_the_last_triangle() {
    let (mut bytes, triangles) = file(1, &[3, 4]);
    bytes.push(9);
    assert_eq!(parse_stl(&bytes), Ok(triangles[..1].to_vec()));
}

#[test]
fn refuses_data_without_a_count() {
    assert_eq!(parse_stl(&[]), Err(StlError::Truncated));
    assert_eq!(parse_stl(&[0u8; 80]), Err(StlError::Truncated));
    assert_eq!(parse_stl(&[0u8; 83]), Err(StlError::Truncated));
    assert_eq!(parse_stl(&[0u8; 84]), Ok(vec![]));
}

#[test]
fn refuses_data_that_ends_in_a_triangle() {
    let (bytes, _) = file(2, &[1, 2]);
    assert_eq!(parse_stl(&bytes[..bytes.len() - 1]), Err(StlError::Truncated));
    assert_eq!(parse_stl(&bytes[..84 + 50]), Err(StlError::Truncated));
    assert_eq!(parse_stl(&bytes[..84]), Err(StlError::Truncated));
    let (huge, _) = file(u32::MAX, &[1]);
    assert_eq!(parse_stl(&huge), Err(StlError::Truncated));
}

#[test]
fn reads_one_record_in_place() {
    let (bytes, triangle) = record(77);
    let mut padded = vec![0u8; 5];
    padded.extend(bytes);
    assert_eq!(triangle_at(&padded, 5), triangle);
}

#[test]
fn corners_carry_the_facet_normal_and_no_texture() {
    let (_, triangle) = record(5);
    let (a, b, c) = triangle.vertices();
    assert_eq!(a, StlVertex { pos: triangle.v0, normal: triangle.normal, tex_u: 0, tex_v: 0 });
    assert_eq!(b, StlVertex { pos: triangle.v1, normal: triangle.normal, tex_u: 0, tex_v: 0 });
    assert_eq!(c, StlVertex { pos: triangle.v2, normal: triangle.normal, tex_u: 0, tex_v: 0 });
    assert_eq!(f32::from_bits(a.tex_u), 0.0);
    assert_ne!(a.pos, b.pos);
}
