use hoteldusk_tools::error::DecodeError;
use hoteldusk_tools::util::{decompress, lzss_decompress};

#[test]
fn lzss_literals_only() {
    let src = [0xFF, 1, 2, 3, 4, 5, 6, 7, 8];
    assert_eq!(lzss_decompress(&src, 8), vec![1, 2, 3, 4, 5, 6, 7, 8]);
}

#[test]
fn lzss_overlapping_back_reference() {
    // One literal, then a back-reference to the slot it was written to, which
    // keeps copying the byte it has just written.
    let src = [0x01, 0x41, 0xFD, 0xFE, 0x00];
    assert_eq!(lzss_decompress(&src, 5), vec![0x41; 5]);
}

#[test]
fn lzss_short_input_is_zero_padded() {
    let src = [0x01, 0x41, 0xFD, 0xFE, 0x00];
    assert_eq!(lzss_decompress(&src, 8), vec![0x41, 0x41, 0x41, 0x41, 0x41, 0, 0, 0]);
}

#[test]
fn lzss_stops_when_output_full() {
    let src = [0xFF, 1, 2, 3, 4, 5, 6, 7, 8];
    assert_eq!(lzss_decompress(&src, 3), vec![1, 2, 3]);
}

#[test]
fn lzss_reads_untouched_window_as_zero() {
    // A back-reference to slot 0, which nothing has written yet.
    let src = [0x00, 0x00, 0x00, 0x00];
    assert_eq!(lzss_decompress(&src, 4), vec![0, 0, 0, 0]);
}

#[test]
fn lzss_is_deterministic() {
    let src = [0x05, 0x10, 0xFD, 0xFE, 0x02, 0x20, 0xFF, 0xFE, 0x01];
    let first = lzss_decompress(&src, 20);
    let second = lzss_decompress(&src, 20);
    assert_eq!(first, second);
    assert_eq!(first.len(), 20);
    assert_eq!(&first[..7], &[0x10, 0x10, 0x10, 0x10, 0x10, 0x10, 0x10]);
}

#[test]
fn container_sliding_window() {
    let mut data = vec![0x12, 0x3D, 0xDA, 0x01];
    data.extend_from_slice(&5u32.to_le_bytes());
    data.extend_from_slice(&5u32.to_le_bytes());
    data.extend_from_slice(&0u32.to_le_bytes());
    data.extend_from_slice(&[0x01, 0x41, 0xFD, 0xFE, 0x00]);
    assert_eq!(decompress(&data), Ok(vec![0x41; 5]));
}

#[test]
fn container_stored() {
    let mut data = vec![0x12, 0x3D, 0xDA, 0x00];
    data.extend_from_slice(&3u32.to_le_bytes());
    data.extend_from_slice(&0u32.to_le_bytes());
    data.extend_from_slice(&0u32.to_le_bytes());
    data.extend_from_slice(&[9, 8, 7, 6]);
    assert_eq!(decompress(&data), Ok(vec![9, 8, 7]));
}

#[test]
fn container_stored_truncated() {
    let mut data = vec![0x12, 0x3D, 0xDA, 0x00];
    data.extend_from_slice(&10u32.to_le_bytes());
    data.extend_from_slice(&0u32.to_le_bytes());
    data.extend_from_slice(&0u32.to_le_bytes());
    data.extend_from_slice(&[9, 8, 7]);
    assert_eq!(decompress(&data), Err(DecodeError::TruncatedInput));
}

#[test]
fn container_short_header() {
    assert_eq!(decompress(&[0x12, 0x3D]), Err(DecodeError::TruncatedInput));
    assert_eq!(decompress(&[0x12, 0x3D, 0xDA, 0x01, 0, 0]), Err(DecodeError::TruncatedInput));
}

#[test]
fn container_unknown_tag() {
    assert_eq!(decompress(&[0x12, 0x3D, 0xDA, 0x02, 0, 0, 0, 0]), Err(DecodeError::UnknownFormat));
    assert_eq!(decompress(b"PLAIN TEXT"), Err(DecodeError::UnknownFormat));
}

#[test]
fn run_length_literal_round_trip() {
    let source: Vec<u8> = (0..200u32).map(|i| (i * 7 % 256) as u8).collect();
    let mut data = vec![0x30, 200, 0, 0];
    for chunk in source.chunks(128) {
        data.push((chunk.len() - 1) as u8);
        data.extend_from_slice(chunk);
    }
    assert_eq!(decompress(&data), Ok(source));
}

#[test]
fn run_length_small_literal() {
    let data = [0x30, 3, 0, 0, 0x02, 0xAA, 0xBB, 0xCC];
    assert_eq!(decompress(&data), Ok(vec![0xAA, 0xBB, 0xCC]));
}

#[test]
fn run_length_repeat() {
    let data = [0x30, 6, 0, 0, 0x81, 0x07, 0x01, 0x01, 0x02];
    assert_eq!(decompress(&data), Ok(vec![7, 7, 7, 7, 1, 2]));
}

#[test]
fn run_length_empty_body() {
    assert_eq!(decompress(&[0x30, 0, 0, 0]), Ok(vec![]));
}

#[test]
fn run_length_truncated() {
    assert_eq!(decompress(&[0x30, 4, 0, 0, 0x03, 1, 2]), Err(DecodeError::TruncatedInput));
    assert_eq!(decompress(&[0x30, 4, 0, 0, 0x85]), Err(DecodeError::TruncatedInput));
}
