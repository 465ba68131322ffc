use raytracer::canvas::Pixel;
use raytracer::texture::{Texture, TextureWrapping};

fn bytes(count: usize) -> Vec<u8> {
    (0..count * 3).map(|i| (i * 7 % 251) as u8).collect()
}

#[test]
fn new_reads_texels_row_by_row() {
    let raw = bytes(6);
    let texture = Texture::new(3, 2, raw.clone()).unwrap();
    assert_eq!(texture.width(), 3);
    assert_eq!(texture.height(), 2);
    assert_eq!(texture.wrapping(), TextureWrapping::Repeat);
    for y in 0..2 {
        for x in 0..3 {
            let i = (y * 3 + x) * 3;
            assert_eq!(texture.texel(x, y), Pixel(raw[i], raw[i + 1], raw[i + 2]));
        }
    }
    assert_eq!(texture.texel(0, 0), Pixel(0, 7, 14));
    assert_eq!(texture.texel(2, 1), Pixel(105, 112, 119));
}

#[test]
fn new_ignores_spare_bytes_and_refuses_too_few() {
    let mut raw = bytes(4);
    raw.extend_from_slice(&[1, 2, 3, 4]);
    let texture = Texture::new(2, 2, raw).unwrap();
    assert_eq!(texture.texel(1, 1), Pixel(63, 70, 77));
    assert!(Texture::new(2, 2, bytes(3)).is_none());
    assert!(Texture::new(2, 2, vec![0; 11]).is_none());
    assert!(Texture::new(2, 2, vec![0; 12]).is_some());
    assert!(Texture::new(u32::MAX, u32::MAX, vec![0; 12]).is_none());
}

#[test]
fn an_empty_texture_is_accepted() {
    let texture = Texture::new(0, 0, Vec::new()).unwrap();
    assert_eq!((texture.width(), texture.height()), (0, 0));
    let texture = Texture::new(5, 0, Vec::new()).unwrap();
    assert_eq!((texture.width(), texture.height()), (5, 0));
}

#[test]
fn set_wrapping_changes_the_rule_only() {
    let texture = Texture::new(2, 1, bytes(2)).unwrap().set_wrapping(TextureWrapping::MirroredRepeat);
    assert_eq!(texture.wrapping(), TextureWrapping::MirroredRepeat);
    assert_eq!(texture.texel(1, 0), Pixel(21, 28, 35));
    let texture = texture.set_wrapping(TextureWrapping::ClampToEdge);
    assert_eq!(texture.wrapping(), TextureWrapping::ClampToEdge);
    assert_eq!((texture.width(), texture.height()), (2, 1));
}
