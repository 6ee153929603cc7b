use hoteldusk_tools::anm::{decode_animation, parse_overlay_frames, parse_record};
use hoteldusk_tools::error::DecodeError;
use hoteldusk_tools::overlay::{apply_overlay, get_overlay_color, lerp_color, multiply_color, MASK_BYTES};

#[test]
fn multiply_color_exact() {
    assert_eq!(multiply_color([255, 255, 255, 255], [128, 128, 128, 128]), [128, 128, 128, 128]);
    assert_eq!(multiply_color([100, 0, 255, 254], [100, 77, 1, 254]), [39, 0, 1, 253]);
}

#[test]
fn lerp_color_exact() {
    assert_eq!(lerp_color([0, 10, 255, 100], [255, 20, 0, 100], 1, 2), [127, 15, 127, 100]);
    assert_eq!(lerp_color([0, 10, 255, 100], [255, 20, 0, 100], 0, 7), [0, 10, 255, 100]);
    assert_eq!(lerp_color([0, 0, 0, 0], [90, 90, 90, 90], 1, 3), [30, 30, 30, 30]);
}

fn gradient_mask() -> Vec<u8> {
    // Texel (x, y) holds x * 10 in red and y * 5 in green.
    let mut mask = Vec::with_capacity(MASK_BYTES);
    for y in 0..33u8 {
        for x in 0..17u8 {
            mask.extend_from_slice(&[x * 10, y * 5, 0, 255]);
        }
    }
    mask
}

#[test]
fn overlay_color_corners_and_middle() {
    let mask = gradient_mask();
    // A 17 by 33 raster maps one to one onto the mask.
    assert_eq!(get_overlay_color(&mask, 0, 0, 17, 33), [0, 0, 0, 255]);
    assert_eq!(get_overlay_color(&mask, 16, 32, 17, 33), [160, 160, 0, 255]);
    assert_eq!(get_overlay_color(&mask, 3, 7, 17, 33), [30, 35, 0, 255]);
    // Halfway between columns 0 and 1, rows 0 and 1.
    assert_eq!(get_overlay_color(&mask, 1, 1, 33, 65), [5, 2, 0, 255]);
    // A one-pixel axis samples the first texel.
    assert_eq!(get_overlay_color(&mask, 0, 0, 1, 1), [0, 0, 0, 255]);
}

#[test]
fn uniform_overlay_blend() {
    let mask = vec![128u8; MASK_BYTES];
    let mut frames = vec![vec![255u8; 4 * 4 * 4]];
    apply_overlay(&mut frames, &[mask], 4, 4);
    for pixel in frames[0].chunks(4) {
        assert_eq!(&pixel[..3], &[128, 128, 128]);
        assert_eq!(pixel[3], 128);
    }
}

#[test]
fn overlay_is_transposed() {
    let mask = gradient_mask();
    let mut frames = vec![vec![255u8; 2 * 3 * 4]];
    // w = 2, h = 3: pixel i samples mask column i / 2 * 16 / 2 and row
    // (1 - i % 2) * 32.
    apply_overlay(&mut frames, &[mask], 2, 3);
    let f = &frames[0];
    assert_eq!(&f[0..4], &[0, 160, 0, 255]);
    assert_eq!(&f[4..8], &[0, 0, 0, 255]);
    assert_eq!(&f[8..12], &[80, 160, 0, 255]);
    assert_eq!(&f[20..24], &[160, 0, 0, 255]);
}

#[test]
fn overlay_leaves_extra_pixels_and_frames() {
    let mask = vec![0u8; MASK_BYTES];
    let mut frames = vec![vec![200u8; 2 * 2 * 4 + 6], vec![9u8; 4]];
    apply_overlay(&mut frames, &[mask], 2, 2);
    assert_eq!(&frames[0][..16], &[0u8; 16]);
    assert_eq!(&frames[0][16..], &[200u8; 6]);
    assert_eq!(frames[1], vec![9u8; 4]);
}

fn record(control: &[u8], palette: &[[u8; 2]]) -> Vec<u8> {
    let mut r = Vec::new();
    r.extend_from_slice(&0u32.to_le_bytes());
    r.extend_from_slice(&(control.len() as u32).to_le_bytes());
    r.extend_from_slice(&((palette.len() * 2) as u32).to_le_bytes());
    r.extend_from_slice(&0u32.to_le_bytes());
    r.extend_from_slice(control);
    for w in palette {
        r.extend_from_slice(w);
    }
    r
}

fn container(default_index: u32, width: u16, height: u16, records: &[Vec<u8>]) -> Vec<u8> {
    let mut data = Vec::new();
    data.extend_from_slice(&0u32.to_le_bytes());
    data.extend_from_slice(&(records.len() as u32).to_le_bytes());
    data.extend_from_slice(&0u32.to_le_bytes());
    data.extend_from_slice(&default_index.to_le_bytes());
    data.extend_from_slice(&width.to_le_bytes());
    data.extend_from_slice(&height.to_le_bytes());
    data.resize(32, 0);
    let mut at = 32 + 16 * records.len();
    for r in records {
        data.extend_from_slice(&(at as u32).to_le_bytes());
        data.extend_from_slice(&(r.len() as u32).to_le_bytes());
        data.extend_from_slice(&[0; 8]);
        at += r.len();
    }
    for r in records {
        data.extend_from_slice(r);
    }
    data
}

#[test]
fn two_frame_animation() {
    let mut literal = vec![0x10];
    literal.extend_from_slice(&[0; 16]);
    let first = record(&literal, &[[0x1F, 0x00]]);
    let second = record(&[0x90], &[[0x00, 0x7C]]);
    let data = container(0, 4, 4, &[first, second]);
    let anim = decode_animation(&data).unwrap();
    assert_eq!((anim.width, anim.height), (4, 4));
    assert_eq!(anim.frames.len(), 2);
    assert_eq!(anim.frames[0].len(), 64);
    assert_eq!(anim.frames[0], [255, 0, 0, 255].repeat(16));
    assert_eq!(anim.frames[0], anim.frames[1]);
}

#[test]
fn failing_frame_is_dropped() {
    let first = record(&[0x41, 0x00], &[[0x1F, 0x00]]);
    let mut bad = record(&[0x41, 0x00], &[[0x1F, 0x00]]);
    bad[0] = 1;
    let zero_run = record(&[0x40, 0x00], &[[0x1F, 0x00]]);
    let empty_palette = record(&[0x41, 0x00], &[]);
    let copy = record(&[0x81], &[[0x00, 0x7C]]);
    let data = container(0, 1, 1, &[first, bad, zero_run, empty_palette, copy]);
    let anim = decode_animation(&data).unwrap();
    assert_eq!(anim.frames, vec![vec![255, 0, 0, 255], vec![255, 0, 0, 255]]);
}

#[test]
fn first_copy_run_uses_default_color() {
    let only = record(&[0x82], &[[0x1F, 0x00], [0x00, 0x7C]]);
    let data = container(1, 2, 1, &[only]);
    let anim = decode_animation(&data).unwrap();
    assert_eq!(anim.frames, vec![[0, 0, 255, 255].repeat(2)]);
}

#[test]
fn animation_truncated_table() {
    let data = container(0, 4, 4, &[record(&[0x81], &[[0, 0]])]);
    assert!(decode_animation(&data[..30]).is_err());
    assert_eq!(decode_animation(&data[..20]).err(), Some(DecodeError::TruncatedInput));
    let mut many = data.clone();
    many[4] = 200;
    assert_eq!(decode_animation(&many).err(), Some(DecodeError::TruncatedInput));
}

#[test]
fn record_out_of_file_is_dropped() {
    let mut data = container(0, 1, 1, &[record(&[0x41, 0x00], &[[0x1F, 0x00]])]);
    data.truncate(data.len() - 1);
    let anim = decode_animation(&data).unwrap();
    assert!(anim.frames.is_empty());
}

#[test]
fn overlay_file_masks() {
    let mut data = vec![0u8; 32];
    data[0] = 2;
    for t in 0..2 * 561u32 {
        let word: u16 = if t < 561 { 0x001F } else { 0x7C00 };
        data.extend_from_slice(&word.to_le_bytes());
    }
    let masks = parse_overlay_frames(&data).unwrap();
    assert_eq!(masks.len(), 2);
    assert_eq!(masks[0], [255, 0, 0, 255].repeat(561));
    assert_eq!(masks[1], [0, 0, 255, 255].repeat(561));
    assert_eq!(parse_overlay_frames(&data[..data.len() - 1]), None);
    assert_eq!(parse_overlay_frames(&data[..10]), None);
}

#[test]
fn record_errors() {
    let mut bad = record(&[0x41, 0x00], &[[0x1F, 0x00]]);
    bad[0] = 1;
    assert_eq!(parse_record(&bad).err(), Some(DecodeError::MalformedFrameHeader));
    let empty = record(&[0x41, 0x00], &[]);
    assert_eq!(parse_record(&empty).err(), Some(DecodeError::EmptyPalette));
    let good = record(&[0x41, 0x00], &[[0x1F, 0x00], [0x00, 0x7C]]);
    let (control, palette) = parse_record(&good).unwrap();
    assert_eq!(control, vec![0x41, 0x00]);
    assert_eq!(palette.len(), 2);
    assert_eq!(palette[1].to_array(), [0, 0, 255, 255]);
    assert_eq!(parse_record(&good[..good.len() - 1]).err(), Some(DecodeError::TruncatedInput));
    assert_eq!(parse_record(&good[..10]).err(), Some(DecodeError::TruncatedInput));
}
