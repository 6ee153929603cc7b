use hoteldusk_tools::image::decode_image;

fn word(v: u16) -> [u8; 2] {
    v.to_le_bytes()
}

fn linear(width: u16, height: u16, palette: &[u16], offset: u16, pixels: &[u8]) -> Vec<u8> {
    let mut d = vec![0u8; 16];
    d.extend_from_slice(&word(width));
    d.extend_from_slice(&word(height));
    d.extend_from_slice(&word(width));
    d.extend_from_slice(&word(height));
    d.extend_from_slice(&word(0));
    d.extend_from_slice(&word(palette.len() as u16));
    d.extend_from_slice(&word(offset));
    d.extend_from_slice(&[0, 0]);
    for p in palette {
        d.extend_from_slice(&word(*p));
    }
    d.extend_from_slice(pixels);
    d
}

fn tiled(width: u16, height: u16, palette: &[u16], data: &[u8]) -> Vec<u8> {
    let mut d = Vec::new();
    d.extend_from_slice(&word(0));
    d.extend_from_slice(&word(palette.len() as u16));
    d.extend_from_slice(&word(width));
    d.extend_from_slice(&word(height));
    d.extend_from_slice(&(data.len() as u32).to_le_bytes());
    d.extend_from_slice(&word(palette.len() as u16 * 2));
    d.extend_from_slice(&[0, 0]);
    for p in palette {
        d.extend_from_slice(&word(*p));
    }
    d.extend_from_slice(data);
    d
}

#[test]
fn linear_image_indices_wrap() {
    let d = linear(2, 1, &[0x001F, 0x7C00], 32, &[1, 2]);
    let img = decode_image(&d).unwrap();
    assert_eq!((img.width, img.height), (2, 1));
    assert_eq!(img.pixels, vec![0, 0, 255, 255, 255, 0, 0, 255]);
}

#[test]
fn linear_image_rejects_bad_offset_and_short_data() {
    assert!(decode_image(&linear(2, 1, &[0x001F], 30, &[0, 0])).is_none());
    assert!(decode_image(&linear(2, 2, &[0x001F], 32, &[0, 0, 0])).is_none());
    assert!(decode_image(&linear(1, 1, &[], 32, &[0])).is_none());
}

#[test]
fn tiled_sixteen_colors() {
    let mut palette = vec![0u16; 16];
    palette[1] = 0x03E0;
    let d = tiled(8, 8, &palette, &[0x10; 32]);
    let img = decode_image(&d).unwrap();
    assert_eq!((img.width, img.height), (8, 8));
    for (j, px) in img.pixels.chunks(4).enumerate() {
        let expected = if j % 2 == 0 { [0, 0, 0, 255] } else { [0, 255, 0, 255] };
        assert_eq!(px, &expected);
    }
}

#[test]
fn tiled_two_tiles_side_by_side() {
    let mut palette = vec![0u16; 256];
    palette[0] = 0x001F;
    palette[1] = 0x7C00;
    let mut data = vec![0u8; 64];
    data.extend(vec![1u8; 64]);
    let img = decode_image(&tiled(16, 8, &palette, &data)).unwrap();
    for y in 0..8 {
        for x in 0..16 {
            let at = (y * 16 + x) * 4;
            let expected = if x < 8 { [255, 0, 0, 255] } else { [0, 0, 255, 255] };
            assert_eq!(&img.pixels[at..at + 4], &expected);
        }
    }
}

#[test]
fn tiled_partial_tile_is_ignored() {
    let palette = vec![0x7FFFu16; 256];
    let img = decode_image(&tiled(8, 16, &palette, &[0u8; 100])).unwrap();
    assert_eq!(&img.pixels[..256], &[255u8; 256][..]);
    assert_eq!(&img.pixels[256..], &[0u8; 256][..]);
}

#[test]
fn tiled_rejections() {
    let palette = vec![0u16; 256];
    // More tiles than the raster holds.
    assert!(decode_image(&tiled(8, 8, &palette, &[0u8; 128])).is_none());
    // Size not a multiple of the tile side.
    assert!(decode_image(&tiled(12, 8, &palette, &[0u8; 64])).is_none());
    // Palette size neither 16 nor 256.
    assert!(decode_image(&tiled(8, 8, &[0u16; 4], &[0u8; 64])).is_none());
    // Palette length disagreeing with its size.
    let mut d = tiled(8, 8, &palette, &[0u8; 64]);
    d[13] = 0;
    assert!(decode_image(&d).is_none());
    // Index bytes missing.
    let d = tiled(8, 8, &palette, &[0u8; 64]);
    assert!(decode_image(&d[..d.len() - 1]).is_none());
}

#[test]
fn image_inside_a_container() {
    let inner = linear(1, 1, &[0x7FFF], 32, &[0]);
    let mut d = vec![0x12, 0x3D, 0xDA, 0x00];
    d.extend_from_slice(&(inner.len() as u32).to_le_bytes());
    d.extend_from_slice(&0u32.to_le_bytes());
    d.extend_from_slice(&0u32.to_le_bytes());
    d.extend_from_slice(&inner);
    let img = decode_image(&d).unwrap();
    assert_eq!(img.pixels, vec![255, 255, 255, 255]);
}
