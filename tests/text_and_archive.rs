use hoteldusk_tools::archive::split_archive;
use hoteldusk_tools::text::extract_lines;

fn table(lines: &[&[u8]]) -> Vec<u8> {
    let mut d = Vec::new();
    d.extend_from_slice(&(lines.len() as u32).to_le_bytes());
    let mut at = 0u32;
    let mut body = Vec::new();
    for l in lines {
        d.extend_from_slice(&at.to_le_bytes());
        body.extend_from_slice(l);
        body.push(0);
        at += l.len() as u32 + 1;
    }
    d.extend(body);
    d
}

#[test]
fn lines_in_table_order() {
    let d = table(&[b"hello", b"", b"world"]);
    assert_eq!(extract_lines(&d), Some(b"hello\n\nworld\n".to_vec()));
}

#[test]
fn lines_follow_offsets() {
    let mut d = vec![2, 0, 0, 0];
    d.extend_from_slice(&3u32.to_le_bytes());
    d.extend_from_slice(&0u32.to_le_bytes());
    d.extend_from_slice(b"ab\0cd\0");
    assert_eq!(extract_lines(&d), Some(b"cd\nab\n".to_vec()));
}

#[test]
fn unterminated_last_line_loses_last_byte() {
    let mut d = vec![1, 0, 0, 0, 0, 0, 0, 0];
    d.extend_from_slice(b"abc");
    assert_eq!(extract_lines(&d), Some(b"ab\n".to_vec()));
}

#[test]
fn line_past_end_is_empty() {
    let mut d = vec![1, 0, 0, 0];
    d.extend_from_slice(&100u32.to_le_bytes());
    assert_eq!(extract_lines(&d), Some(b"\n".to_vec()));
}

#[test]
fn line_table_too_short() {
    assert_eq!(extract_lines(&[1, 0]), None);
    assert_eq!(extract_lines(&[2, 0, 0, 0, 0, 0, 0, 0]), None);
    assert_eq!(extract_lines(&[0, 0, 0, 0]), Some(vec![]));
}

fn entry(name: &[u8], data: &[u8], next: u32) -> Vec<u8> {
    let mut e = vec![b'/'];
    e.extend_from_slice(name);
    e.resize(24, 0);
    e.extend_from_slice(&(data.len() as u32).to_le_bytes());
    e.extend_from_slice(&next.to_le_bytes());
    e.extend_from_slice(data);
    e
}

#[test]
fn archive_members() {
    let first = entry(b"a.bin", &[1, 2, 3], 35);
    let second = entry(b"b.txt", &[9], 0);
    let mut d = first.clone();
    d.extend(second);
    d.extend(vec![0u8; 24]);
    let members = split_archive(&d).unwrap();
    assert_eq!(members.len(), 2);
    assert_eq!(members[0].name, b"a.bin".to_vec());
    assert_eq!(members[0].data, vec![1, 2, 3]);
    assert_eq!(members[1].name, b"b.txt".to_vec());
    assert_eq!(members[1].data, vec![9]);
}

#[test]
fn archive_follows_next_offset() {
    let mut d = entry(b"x", &[7, 7], 40);
    d.resize(40, 0xEE);
    d.extend(entry(b"y", &[], 1000));
    let members = split_archive(&d).unwrap();
    assert_eq!(members.len(), 2);
    assert_eq!(members[1].name, b"y".to_vec());
    assert!(members[1].data.is_empty());
}

#[test]
fn archive_stops_at_empty_name_or_end() {
    assert_eq!(split_archive(&[0u8; 40]).map(|m| m.len()), Some(0));
    assert_eq!(split_archive(&[1u8; 10]).map(|m| m.len()), Some(0));
}

#[test]
fn archive_truncated_entry() {
    let d = entry(b"a", &[1, 2, 3, 4], 0);
    assert!(split_archive(&d[..d.len() - 1]).is_none());
    assert!(split_archive(&d[..28]).is_none());
}
