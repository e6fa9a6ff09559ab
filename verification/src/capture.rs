//! Pixel and byte work on captured data: cutting a region out of a
//! window's 32-bit BGRA snapshot as RGB pixels, and finding a byte pattern
//! at even offsets of a memory block.
use vstd::arithmetic::div_mod::lemma_fundamental_div_mod_converse;
use vstd::prelude::*;

verus! {

/// The RGB pixel at `(sx, sy)` of a top-down BGRA snapshot `win_w` pixels
/// wide and `win_h` high; black outside the snapshot.
pub open spec fn pixel_at(pixels: Seq<u8>, win_w: int, win_h: int, sx: int, sy: int) -> (
    u8,
    u8,
    u8,
) {
    if 0 <= sx < win_w && 0 <= sy < win_h {
        let i = (sy * win_w + sx) * 4;
        (pixels[i + 2], pixels[i + 1], pixels[i])
    } else {
        (0, 0, 0)
    }
}

/// The `w` by `h` region at `(x, y)` of a BGRA snapshot, as RGB pixels row
/// by row; pixels that fall outside the snapshot are black.
pub fn crop_bgra(pixels: &[u8], win_w: i32, win_h: i32, x: i32, y: i32, w: i32, h: i32) -> (res:
    Vec<(u8, u8, u8)>)
    requires
        win_w > 0,
        win_h > 0,
        pixels@.len() == win_w * win_h * 4,
        w >= 0,
        h >= 0,
    ensures
        res@.len() == w * h,
        forall|k: int|
            0 <= k < w * h ==> #[trigger] res@[k] == pixel_at(
                pixels@,
                win_w as int,
                win_h as int,
                x + k % (w as int),
                y + k / (w as int),
            ),
{
    let mut res: Vec<(u8, u8, u8)> = Vec::new();
    let mut cy: i64 = 0;
    while cy < h as i64
        invariant
            0 <= cy <= h,
            w >= 0,
            win_w > 0,
            win_h > 0,
            pixels@.len() == win_w * win_h * 4,
            res@.len() == cy * w,
            forall|k: int|
                0 <= k < cy * w ==> #[trigger] res@[k] == pixel_at(
                    pixels@,
                    win_w as int,
                    win_h as int,
                    x + k % (w as int),
                    y + k / (w as int),
                ),
        decreases h - cy,
    {
        let mut cx: i64 = 0;
        while cx < w as i64
            invariant
                0 <= cy < h,
                0 <= cx <= w,
                w >= 0,
                win_w > 0,
                win_h > 0,
                pixels@.len() == win_w * win_h * 4,
                res@.len() == cy * w + cx,
                forall|k: int|
                    0 <= k < cy * w + cx ==> #[trigger] res@[k] == pixel_at(
                        pixels@,
                        win_w as int,
                        win_h as int,
                        x + k % (w as int),
                        y + k / (w as int),
                    ),
            decreases w - cx,
        {
            let sx: i64 = x as i64 + cx;
            let sy: i64 = y as i64 + cy;
            let p = if sx >= 0 && sx < win_w as i64 && sy >= 0 && sy < win_h as i64 {
                assert(sy * win_w + sx <= win_w * win_h - 1) by (nonlinear_arith)
                    requires
                        0 <= sx < win_w,
                        0 <= sy < win_h,
                ;
                assert(0 <= sy * win_w) by (nonlinear_arith)
                    requires
                        0 <= sy,
                        0 <= win_w,
                ;
                assert(sy * win_w <= 0x8000_0000 * 0x8000_0000) by (nonlinear_arith)
                    requires
                        0 <= sy < 0x8000_0000,
                        0 <= win_w < 0x8000_0000,
                ;
                let base: i64 = sy * (win_w as i64) + sx;
                assert(base * 4 + 4 <= win_w * win_h * 4) by (nonlinear_arith)
                    requires
                        base <= win_w * win_h - 1,
                ;
                let n = pixels.len();
                assert(base * 4 + 4 <= n);
                let idx: usize = (base as usize) * 4;
                (pixels[idx + 2], pixels[idx + 1], pixels[idx])
            } else {
                (0u8, 0u8, 0u8)
            };
            proof {
                let k = cy * w + cx;
                lemma_fundamental_div_mod_converse(k as int, w as int, cy as int, cx as int);
                assert(p == pixel_at(pixels@, win_w as int, win_h as int, x + k % (w as int), y + k
                    / (w as int)));
            }
            res.push(p);
            cx = cx + 1;
        }
        assert(cy * w + w == (cy + 1) * w) by (nonlinear_arith);
        cy = cy + 1;
    }
    assert(cy * w == w * h) by (nonlinear_arith)
        requires
            cy == h,
    ;
    res
}

/// `pattern` occurs in `bytes` at `i`.
pub open spec fn matches_at(bytes: Seq<u8>, pattern: Seq<u8>, i: int) -> bool {
    0 <= i && i + pattern.len() <= bytes.len() && bytes.subrange(i, i + pattern.len()) == pattern
}

/// The even offsets at which `pattern` occurs in `bytes`, in increasing
/// order: where a UTF-16 text can start in a memory block.
pub fn aligned_matches(bytes: &[u8], pattern: &[u8]) -> (res: Vec<usize>)
    ensures
        forall|k: int|
            0 <= k < res@.len() ==> (#[trigger] res@[k]) % 2 == 0 && matches_at(
                bytes@,
                pattern@,
                res@[k] as int,
            ),
        forall|k: int, l: int| 0 <= k < l < res@.len() ==> res@[k] < res@[l],
        forall|i: int|
            0 <= i && i % 2 == 0 && #[trigger] matches_at(bytes@, pattern@, i) ==> res@.contains(
                i as usize,
            ),
{
    let mut res: Vec<usize> = Vec::new();
    if bytes.len() < pattern.len() {
        return res;
    }
    let last = bytes.len() - pattern.len();
    let mut i: usize = 0;
    loop
        invariant_except_break
            forall|k: int| 0 <= k < res@.len() ==> (#[trigger] res@[k]) < i,
            forall|j: int|
                0 <= j < i && j % 2 == 0 && #[trigger] matches_at(bytes@, pattern@, j)
                    ==> res@.contains(j as usize),
        invariant
            last == bytes.len() - pattern.len(),
            i % 2 == 0,
            i <= last,
            forall|k: int|
                0 <= k < res@.len() ==> (#[trigger] res@[k]) % 2 == 0 && res@[k] <= i && matches_at(
                    bytes@,
                    pattern@,
                    res@[k] as int,
                ),
            forall|k: int, l: int| 0 <= k < l < res@.len() ==> res@[k] < res@[l],
        ensures
            forall|j: int|
                0 <= j <= last && j % 2 == 0 && #[trigger] matches_at(bytes@, pattern@, j)
                    ==> res@.contains(j as usize),
        decreases last - i,
    {
        let mut same = true;
        let mut t: usize = 0;
        while t < pattern.len()
            invariant
                i <= last,
                last == bytes.len() - pattern.len(),
                t <= pattern.len(),
                same == (bytes@.subrange(i as int, i + t) =~= pattern@.take(t as int)),
            decreases pattern.len() - t,
        {
            assert(bytes@.subrange(i as int, i + t + 1) =~= bytes@.subrange(i as int, i + t).push(
                bytes@[i + t],
            ));
            assert(pattern@.take(t + 1) =~= pattern@.take(t as int).push(pattern@[t as int]));
            if bytes[i + t] != pattern[t] {
                assert(bytes@.subrange(i as int, i + t + 1)[t as int] != pattern@.take(t + 1)[t as int]);
                same = false;
            }
            t = t + 1;
        }
        assert(pattern@.take(pattern.len() as int) =~= pattern@);
        assert(same == matches_at(bytes@, pattern@, i as int));
        let ghost old_res = res@;
        if same {
            res.push(i);
        }
        assert forall|j: int|
            0 <= j < i + 2 && j % 2 == 0 && #[trigger] matches_at(
                bytes@,
                pattern@,
                j,
            ) implies res@.contains(j as usize) by {
            if j < i {
                let m = choose|m: int| 0 <= m < old_res.len() && old_res[m] == j as usize;
                assert(res@[m] == j as usize);
            } else {
                assert(j == i);
                assert(res@[old_res.len() as int] == i);
            }
        }
        if last - i < 2 {
            break;
        }
        i = i + 2;
    }
    res
}

} // verus!
