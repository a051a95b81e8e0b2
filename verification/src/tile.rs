use vstd::prelude::*;
use vstd::arithmetic::div_mod::{lemma_fundamental_div_mod, lemma_mod_bound};

verus! {

/// Height of the tile band holding row band `ty` of an `h`-row image: 32,
/// clipped at the bottom edge.
pub open spec fn band_height(h: int, ty: int) -> int {
    if h - 32 * ty < 32 {
        h - 32 * ty
    } else {
        32
    }
}

/// Width of the tile column holding column band `tx` of a `w`-column image:
/// 32, clipped at the right edge.
pub open spec fn band_width(w: int, tx: int) -> int {
    if w - 32 * tx < 32 {
        w - 32 * tx
    } else {
        32
    }
}

/// Position of raster coordinate `(x, y)` in the 32x32 block-scan order:
/// tiles left-to-right then top-to-bottom, each tile scanned row-major and
/// clipped at the image boundary.
pub open spec fn scan_index(w: int, h: int, x: int, y: int) -> int {
    32 * (y / 32) * w + band_height(h, y / 32) * 32 * (x / 32) + (y % 32) * band_width(w, x / 32)
        + x % 32
}

/// The raster-order grid recovered from a flat pixel sequence laid out in
/// 32x32 block-scan order.
pub open spec fn deinterleave_model<T>(px: Seq<T>, w: int, h: int) -> Seq<T> {
    Seq::new((w * h) as nat, |j: int| px[scan_index(w, h, j % w, j / w)])
}

/// The block-scan position of every in-range coordinate lies within the
/// image's pixel count.
pub proof fn lemma_scan_index_bounds(w: int, h: int, x: int, y: int)
    requires
        0 <= x < w,
        0 <= y < h,
    ensures
        0 <= scan_index(w, h, x, y) < w * h,
{
    let tx = x / 32;
    let ty = y / 32;
    let c = x % 32;
    let r = y % 32;
    let tw = band_width(w, tx);
    let th = band_height(h, ty);
    lemma_fundamental_div_mod(x, 32);
    lemma_fundamental_div_mod(y, 32);
    lemma_mod_bound(x, 32);
    lemma_mod_bound(y, 32);
    assert(x == 32 * tx + c);
    assert(y == 32 * ty + r);
    assert(c < tw && r < th && 32 * tx + tw <= w && 32 * ty + th <= h);
    let s = scan_index(w, h, x, y);
    assert(s == 32 * ty * w + th * 32 * tx + r * tw + c);
    assert(r * tw + c <= th * tw - 1) by (nonlinear_arith)
        requires
            r <= th - 1,
            c <= tw - 1,
            tw >= 1;
    assert(th * 32 * tx + th * tw <= th * w) by (nonlinear_arith)
        requires
            32 * tx + tw <= w,
            th >= 0;
    assert(32 * ty * w + th * w <= h * w) by (nonlinear_arith)
        requires
            32 * ty + th <= h,
            w >= 0;
    assert(s >= 0) by (nonlinear_arith)
        requires
            s == 32 * ty * w + th * 32 * tx + r * tw + c,
            ty >= 0,
            tx >= 0,
            w >= 0,
            th >= 0,
            tw >= 0,
            r >= 0,
            c >= 0;
    assert(h * w == w * h) by (nonlinear_arith);
}

/// Reorders a flat pixel sequence produced in 32x32 block-scan order back
/// into raster (row-major) order.
pub fn deinterleave_tiles(pixels: &Vec<[u8; 4]>, width: u16, height: u16) -> (r: Vec<[u8; 4]>)
    requires
        pixels@.len() == width * height,
    ensures
        r@ == deinterleave_model(pixels@, width as int, height as int),
        r@.len() == width * height,
        forall|x: int, y: int|
            0 <= x < width && 0 <= y < height ==> r@[y * width + x] == pixels@[scan_index(
                width as int,
                height as int,
                x,
                y,
            )],
{
    let w: usize = width as usize;
    let h: usize = height as usize;
    proof {
        assert((w as int) * (h as int) <= 0xFFFF * 0xFFFF) by (nonlinear_arith)
            requires
                0 <= (w as int) <= 0xFFFF,
                0 <= (h as int) <= 0xFFFF;
    }
    let total: usize = w * h;
    let mut out: Vec<[u8; 4]> = Vec::new();
    let mut j: usize = 0;
    while j < total
        invariant
            pixels@.len() == total == w * h,
            w == width,
            h == height,
            j <= total,
            out@.len() == j,
            forall|jj: int|
                0 <= jj < j ==> out@[jj] == pixels@[scan_index(
                    w as int,
                    h as int,
                    jj % (w as int),
                    jj / (w as int),
                )],
        decreases total - j,
    {
        proof {
            assert(w > 0 && h > 0) by (nonlinear_arith)
                requires
                    (j as int) < (w as int) * (h as int),
                    j >= 0,
                    w >= 0,
                    h >= 0;
        }
        let x: u64 = (j % w) as u64;
        let y: u64 = (j / w) as u64;
        proof {
            lemma_fundamental_div_mod(j as int, w as int);
            lemma_mod_bound(j as int, w as int);
            assert((j as int) / (w as int) < h as int) by (nonlinear_arith)
                requires
                    (w as int) * ((j as int) / (w as int)) <= j as int,
                    (j as int) < (w as int) * (h as int),
                    w > 0;
        }
        let tx: u64 = x / 32;
        let ty: u64 = y / 32;
        proof {
            lemma_fundamental_div_mod(x as int, 32);
            lemma_fundamental_div_mod(y as int, 32);
            lemma_mod_bound(x as int, 32);
            lemma_mod_bound(y as int, 32);
            assert(32 * (tx as int) <= x as int);
            assert(32 * (ty as int) <= y as int);
        }
        let bw: u64 = if (w as u64) - 32 * tx < 32 {
            (w as u64) - 32 * tx
        } else {
            32
        };
        let bh: u64 = if (h as u64) - 32 * ty < 32 {
            (h as u64) - 32 * ty
        } else {
            32
        };
        proof {
            assert((32 * (ty as int)) * (w as int) <= 0x10000 * 0x10000) by (nonlinear_arith)
                requires
                    0 <= 32 * (ty as int) <= 0xFFFF,
                    0 <= (w as int) <= 0xFFFF;
            assert(((bh as int) * 32) * (tx as int) <= 0x10000 * 0x10000) by (nonlinear_arith)
                requires
                    0 <= (bh as int) * 32 <= 0x400,
                    0 <= (tx as int) <= 0x800;
            assert(((y as int) - 32 * (ty as int)) * (bw as int) <= 0x400) by (nonlinear_arith)
                requires
                    0 <= (y as int) - 32 * (ty as int) < 32,
                    0 <= (bw as int) <= 32;
        }
        let t1: u64 = 32 * ty * (w as u64);
        let t2: u64 = bh * 32 * tx;
        let t3: u64 = (y - 32 * ty) * bw;
        let idx64: u64 = t1 + t2 + t3 + (x - 32 * tx);
        proof {
            lemma_scan_index_bounds(w as int, h as int, x as int, y as int);
            assert(idx64 == scan_index(w as int, h as int, x as int, y as int));
        }
        let idx: usize = idx64 as usize;
        out.push(pixels[idx]);
        j = j + 1;
    }
    proof {
        assert(out@ =~= deinterleave_model(pixels@, width as int, height as int));
        assert forall|x: int, y: int| 0 <= x < width && 0 <= y < height implies out@[y * width + x]
            == pixels@[scan_index(width as int, height as int, x, y)] by {
            let j = y * width + x;
            assert(0 <= j < width * height) by (nonlinear_arith)
                requires
                    j == y * (width as int) + x,
                    0 <= x < width as int,
                    0 <= y < height as int;
            lemma_fundamental_div_mod(j, width as int);
            lemma_mod_bound(j, width as int);
            assert(j % (width as int) == x && j / (width as int) == y) by (nonlinear_arith)
                requires
                    j == y * (width as int) + x,
                    0 <= x < width as int,
                    (width as int) * (j / (width as int)) + j % (width as int) == j,
                    0 <= j % (width as int) < width as int;
        }
    }
    out
}

/// Law: serializing a raster grid into 32x32 block-scan order and then
/// deinterleaving that flat sequence recovers the original grid exactly,
/// whether or not the dimensions are multiples of 32.
pub proof fn lemma_tile_round_trip<T>(grid: Seq<T>, tiled: Seq<T>, w: int, h: int)
    requires
        w >= 0,
        h >= 0,
        grid.len() == w * h,
        tiled.len() == w * h,
        forall|x: int, y: int|
            0 <= x < w && 0 <= y < h ==> tiled[scan_index(w, h, x, y)] == grid[y * w + x],
    ensures
        deinterleave_model(tiled, w, h) == grid,
{
    let d = deinterleave_model(tiled, w, h);
    assert forall|j: int| 0 <= j < w * h implies d[j] == grid[j] by {
        assert(w > 0) by (nonlinear_arith)
            requires
                0 <= j < w * h,
                w >= 0;
        lemma_fundamental_div_mod(j, w);
        lemma_mod_bound(j, w);
        let x = j % w;
        let y = j / w;
        assert(y < h) by (nonlinear_arith)
            requires
                w * y + x == j,
                0 <= x,
                j < w * h,
                w > 0;
        assert(y >= 0) by (nonlinear_arith)
            requires
                w * y + x == j,
                0 <= j,
                x < w,
                w > 0;
        assert(y * w + x == j) by (nonlinear_arith)
            requires
                w * y + x == j;
        assert(tiled[scan_index(w, h, x, y)] == grid[y * w + x]);
    }
    assert(d =~= grid);
}

} // verus!
