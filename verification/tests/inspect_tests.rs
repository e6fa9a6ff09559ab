use limitless::inspect::{ascii_strings, utf16_strings};

fn reference_ascii(bytes: &[u8]) -> Vec<String> {
    let mut out = Vec::new();
    let mut cur = String::new();
    for b in bytes {
        if *b >= 32 && *b <= 126 {
            cur.push(*b as char);
        } else {
            if cur.len() >= 6 {
                out.push(cur.clone());
            }
            cur.clear();
        }
    }
    out
}

fn reference_utf16(bytes: &[u8]) -> Vec<String> {
    let mut out = Vec::new();
    let mut cur = String::new();
    for i in 0..(bytes.len() / 2) {
        let c = u16::from_le_bytes([bytes[i * 2], bytes[i * 2 + 1]]);
        if (32..=126).contains(&c) {
            cur.push(c as u8 as char);
        } else {
            if cur.len() >= 6 {
                out.push(format!("U: {}", cur));
            }
            cur.clear();
        }
    }
    out
}

#[test]
fn ascii_runs() {
    let data = b"\x00hello\x00longer string\x01abcdef\x7fopen end";
    assert_eq!(ascii_strings(data), vec!["longer string".to_string(), "abcdef".to_string()]);
    assert_eq!(ascii_strings(data), reference_ascii(data));
    assert!(ascii_strings(b"").is_empty());
}

#[test]
fn utf16_runs() {
    let mut data = Vec::new();
    for c in "Launcher".encode_utf16() {
        data.extend_from_slice(&c.to_le_bytes());
    }
    data.extend_from_slice(&[0, 0]);
    for c in "short".encode_utf16() {
        data.extend_from_slice(&c.to_le_bytes());
    }
    data.extend_from_slice(&[0, 1, 7]);
    assert_eq!(utf16_strings(&data), vec!["U: Launcher".to_string()]);
    assert_eq!(utf16_strings(&data), reference_utf16(&data));
}

#[test]
fn runs_match_on_mixed_bytes() {
    let data: Vec<u8> = (0..2000u32).map(|i| ((i * 37 + i / 7) % 140) as u8).collect();
    assert_eq!(ascii_strings(&data), reference_ascii(&data));
    assert_eq!(utf16_strings(&data), reference_utf16(&data));
}
