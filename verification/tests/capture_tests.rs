use limitless::capture::{aligned_matches, crop_bgra};

fn snapshot(w: i32, h: i32) -> Vec<u8> {
    let mut v = Vec::new();
    for y in 0..h {
        for x in 0..w {
            v.extend_from_slice(&[x as u8, y as u8, 200, 255]);
        }
    }
    v
}

#[test]
fn crop_inside() {
    let px = snapshot(4, 3);
    let out = crop_bgra(&px, 4, 3, 1, 1, 2, 2);
    assert_eq!(out, vec![(200, 1, 1), (200, 1, 2), (200, 2, 1), (200, 2, 2)]);
}

#[test]
fn crop_outside_is_black() {
    let px = snapshot(2, 2);
    let out = crop_bgra(&px, 2, 2, -1, 1, 3, 2);
    assert_eq!(out, vec![(0, 0, 0), (200, 1, 0), (200, 1, 1), (0, 0, 0), (0, 0, 0), (0, 0, 0)]);
    assert!(crop_bgra(&px, 2, 2, 0, 0, 0, 5).is_empty());
}

#[test]
fn utf16_pattern_at_even_offsets() {
    let pat = [0x54u8, 0x00, 0x6F, 0x00];
    let buf = [0u8, 0x54, 0x00, 0x6F, 0x00, 0x54, 0x00, 0x6F, 0x00, 0x54];
    assert_eq!(aligned_matches(&buf, &pat), Vec::<usize>::new());
    let buf2 = [0x54u8, 0x00, 0x6F, 0x00, 0x00, 0x00, 0x54, 0x00, 0x6F, 0x00];
    assert_eq!(aligned_matches(&buf2, &pat), vec![0, 6]);
    assert_eq!(aligned_matches(&[1u8, 2], &pat), Vec::<usize>::new());
}
