use vstd::prelude::*;
use vstd::arithmetic::div_mod::{lemma_fundamental_div_mod, lemma_mod_bound};
use crate::pixel::{
    convert_pixel,
    known_pixel_code,
    pixel_byte_width,
    pixel_code_known,
    sample_of,
};
use crate::reader::{Reader, skip_clamped, u16_rest, u16_val, u32_rest, u32_val, u8_rest, u8_val};
use crate::tile::{deinterleave_model, deinterleave_tiles, lemma_scan_index_bounds, scan_index};

verus! {

/// Mathematical image of one decoded sprite sheet: its dimensions and its
/// RGBA samples in raster order.
#[verifier::ext_equal]
pub struct SpriteModel {
    pub width: u16,
    pub height: u16,
    pub pixels: Seq<Seq<u8>>,
}

/// One decoded sprite sheet: a `width` x `height` raster grid of RGBA
/// samples, in row-major order.
pub struct Sprite {
    pub width: u16,
    pub height: u16,
    pub pixels: Vec<[u8; 4]>,
}

/// The RGBA byte quadruples of a pixel sequence.
pub open spec fn px_views(v: Seq<[u8; 4]>) -> Seq<Seq<u8>> {
    v.map_values(|p: [u8; 4]| p@)
}

impl View for Sprite {
    type V = SpriteModel;

    open spec fn view(&self) -> SpriteModel {
        SpriteModel { width: self.width, height: self.height, pixels: px_views(self.pixels@) }
    }
}

/// The models of a sequence of sprites.
pub open spec fn sprite_views(v: Seq<Sprite>) -> Seq<SpriteModel> {
    v.map_values(|s: Sprite| s@)
}

/// The chunk types that carry image data; every other type is opaque.
pub open spec fn image_chunk_type(t: u8) -> bool {
    t == 1 || t == 24 || t == 27 || t == 28
}

/// The image chunk types whose pixels are stored in 32x32 block-scan order.
pub open spec fn tiled_chunk_type(t: u8) -> bool {
    t == 27 || t == 28
}

/// Whether `t` is a recognized image chunk type.
pub fn is_image_chunk_type(t: u8) -> (r: bool)
    ensures
        r == image_chunk_type(t),
{
    t == 1 || t == 24 || t == 27 || t == 28
}

/// Whether `t` is an image chunk type stored in block-scan order.
pub fn is_tiled_chunk_type(t: u8) -> (r: bool)
    ensures
        r == tiled_chunk_type(t),
{
    t == 27 || t == 28
}

/// The first `n` samples of sub-format `code` decoded from the head of `s`,
/// reading past the end of the stream as zeros.
pub open spec fn pixel_samples(code: u8, s: Seq<u8>, n: nat) -> Seq<Seq<u8>>
    decreases n,
{
    if n == 0 {
        seq![]
    } else {
        seq![sample_of(code, s)] + pixel_samples(
            code,
            skip_clamped(s, pixel_byte_width(code)),
            (n - 1) as nat,
        )
    }
}

/// What remains of `s` after `n` samples of sub-format `code` are consumed.
pub open spec fn pixels_rest(code: u8, s: Seq<u8>, n: nat) -> Seq<u8>
    decreases n,
{
    if n == 0 {
        s
    } else {
        pixels_rest(code, skip_clamped(s, pixel_byte_width(code)), (n - 1) as nat)
    }
}

/// Consuming pixel samples never lengthens the stream.
pub proof fn lemma_pixels_rest_len(code: u8, s: Seq<u8>, n: nat)
    ensures
        pixels_rest(code, s, n).len() <= s.len(),
    decreases n,
{
    if n > 0 {
        lemma_pixels_rest_len(code, skip_clamped(s, pixel_byte_width(code)), (n - 1) as nat);
    }
}

/// Bytes left to skip to reach the next chunk boundary after an image
/// chunk's five header bytes were already consumed.
pub open spec fn sub5_floor(size: u32) -> int {
    if size >= 5 {
        size - 5
    } else {
        0
    }
}

/// The model of the sprite decoded from one image chunk whose pixel data
/// starts at `s`: the samples in raster order, deinterleaved from block-scan
/// order for the tiled chunk types.
pub open spec fn chunk_sprite(t: u8, sub: u8, w: u16, h: u16, s: Seq<u8>) -> SpriteModel {
    let px = pixel_samples(sub, s, (w * h) as nat);
    SpriteModel {
        width: w,
        height: h,
        pixels: if tiled_chunk_type(t) {
            deinterleave_model(px, w as int, h as int)
        } else {
            px
        },
    }
}

/// The sprites and the unrecognized pixel sub-format codes yielded by
/// walking the chunk stream `s`: each chunk is a type byte and a
/// little-endian size; opaque chunks are skipped over by their declared
/// size, image chunks carry a sub-format code, dimensions and packed
/// pixels, and a chunk with an unknown sub-format is abandoned by skipping
/// to its declared boundary while its siblings are still decoded.
pub open spec fn parse_chunks(s: Seq<u8>) -> (Seq<SpriteModel>, Seq<u8>)
    decreases s.len(),
    via parse_chunks_decreases
{
    if s.len() == 0 {
        (seq![], seq![])
    } else {
        let t = u8_val(s);
        let r1 = u8_rest(s);
        let size = u32_val(r1);
        let r2 = u32_rest(r1);
        if !image_chunk_type(t) {
            parse_chunks(skip_clamped(r2, size as int))
        } else {
            let sub = u8_val(r2);
            let r3 = u8_rest(r2);
            let w = u16_val(r3);
            let r4 = u16_rest(r3);
            let h = u16_val(r4);
            let r5 = u16_rest(r4);
            if known_pixel_code(sub) {
                let rest = parse_chunks(pixels_rest(sub, r5, (w * h) as nat));
                (seq![chunk_sprite(t, sub, w, h, r5)] + rest.0, rest.1)
            } else {
                let rest = parse_chunks(skip_clamped(r5, sub5_floor(size)));
                (rest.0, seq![sub] + rest.1)
            }
        }
    }
}

#[via_fn]
proof fn parse_chunks_decreases(s: Seq<u8>) {
    if s.len() != 0 {
        let r1 = u8_rest(s);
        let size = u32_val(r1);
        let r2 = u32_rest(r1);
        let r3 = u8_rest(r2);
        let r4 = u16_rest(r3);
        let r5 = u16_rest(r4);
        let sub = u8_val(r2);
        let w = u16_val(r3);
        let h = u16_val(r4);
        assert(r5.len() < s.len());
        lemma_pixels_rest_len(sub, r5, (w * h) as nat);
    }
}

/// Deinterleaving commutes with taking the byte view of each pixel.
pub proof fn lemma_deinterleave_views(px: Seq<[u8; 4]>, w: int, h: int)
    requires
        w >= 0,
        h >= 0,
        px.len() == w * h,
    ensures
        px_views(deinterleave_model(px, w, h)) == deinterleave_model(px_views(px), w, h),
{
    let a = px_views(deinterleave_model(px, w, h));
    let b = deinterleave_model(px_views(px), w, h);
    assert forall|j: int| 0 <= j < w * h implies a[j] == b[j] by {
        assert(w > 0) by (nonlinear_arith)
            requires
                0 <= j < w * h,
                w >= 0;
        lemma_fundamental_div_mod(j, w);
        lemma_mod_bound(j, w);
        let x = j % w;
        let y = j / w;
        assert(y < h) by (nonlinear_arith)
            requires
                w * y + x == j,
                0 <= x,
                j < w * h,
                w > 0;
        assert(y >= 0) by (nonlinear_arith)
            requires
                w * y + x == j,
                0 <= j,
                x < w,
                w > 0;
        lemma_scan_index_bounds(w, h, x, y);
        assert(a[j] == px[scan_index(w, h, x, y)]@);
        assert(b[j] == px_views(px)[scan_index(w, h, x, y)]);
    }
    assert(a =~= b);
}

/// Walks the decompressed container and decodes every image chunk.
///
/// Returns the decoded sprites in container order, together with the
/// unrecognized pixel sub-format codes of the image chunks that were
/// abandoned; an abandoned chunk never stops its siblings from being
/// decoded.
#[verifier::loop_isolation(false)]
pub fn parse_container(data: &[u8]) -> (r: (Vec<Sprite>, Vec<u8>))
    ensures
        sprite_views(r.0@) == parse_chunks(data@).0,
        r.1@ == parse_chunks(data@).1,
{
    let mut reader = Reader::new(data);
    let mut sprites: Vec<Sprite> = Vec::new();
    let mut bad: Vec<u8> = Vec::new();
    proof {
        assert(sprite_views(sprites@) + parse_chunks(reader.remaining()).0 =~= parse_chunks(
            data@,
        ).0);
        assert(bad@ + parse_chunks(reader.remaining()).1 =~= parse_chunks(data@).1);
    }
    while reader.len() > 0
        invariant
            reader.wf(),
            reader.total() == data@,
            parse_chunks(data@).0 == sprite_views(sprites@) + parse_chunks(reader.remaining()).0,
            parse_chunks(data@).1 == bad@ + parse_chunks(reader.remaining()).1,
        decreases reader.remaining().len(),
    {
        let ghost rem0 = reader.remaining();
        let ghost done = sprite_views(sprites@);
        let ghost done_bad = bad@;
        let file_type = reader.read_byte();
        let file_size = reader.read_uint32();
        if !is_image_chunk_type(file_type) {
            let _ = reader.read(file_size as usize);
            proof {
                assert(parse_chunks(rem0) == parse_chunks(reader.remaining()));
            }
        } else {
            let sub_type = reader.read_byte();
            let width = reader.read_uint16();
            let height = reader.read_uint16();
            let ghost r5 = reader.remaining();
            if !pixel_code_known(sub_type) {
                bad.push(sub_type);
                let skip_amt: usize = if file_size >= 5 {
                    (file_size - 5) as usize
                } else {
                    0
                };
                let _ = reader.read(skip_amt);
                proof {
                    assert(reader.remaining() == skip_clamped(r5, sub5_floor(file_size)));
                    let rest = parse_chunks(reader.remaining());
                    assert(parse_chunks(rem0).0 == rest.0);
                    assert(parse_chunks(rem0).1 == seq![sub_type] + rest.1);
                    assert(done_bad + (seq![sub_type] + rest.1) =~= bad@ + rest.1);
                }
            } else {
                proof {
                    assert((width as int) * (height as int) <= 0xFFFF * 0xFFFF) by (
                    nonlinear_arith)
                        requires
                            0 <= (width as int) <= 0xFFFF,
                            0 <= (height as int) <= 0xFFFF;
                }
                let total: usize = (width as usize) * (height as usize);
                let mut pixels: Vec<[u8; 4]> = Vec::new();
                let mut i: usize = 0;
                proof {
                    assert(px_views(pixels@) + pixel_samples(sub_type, reader.remaining(), (
                    total - i) as nat) =~= pixel_samples(sub_type, r5, total as nat));
                }
                while i < total
                    invariant
                        reader.wf(),
                        i <= total,
                        known_pixel_code(sub_type),
                        pixel_samples(sub_type, r5, total as nat) == px_views(pixels@)
                            + pixel_samples(sub_type, reader.remaining(), (total - i) as nat),
                        pixels_rest(sub_type, r5, total as nat) == pixels_rest(
                            sub_type,
                            reader.remaining(),
                            (total - i) as nat,
                        ),
                        pixels@.len() == i,
                        reader.remaining().len() <= r5.len(),
                        reader.total() == data@,
                    decreases total - i,
                {
                    let ghost rem_px = reader.remaining();
                    let ghost old_px = pixels@;
                    let px = match convert_pixel(&mut reader, sub_type) {
                        Ok(p) => p,
                        Err(_) => {
                            proof {
                                assert(false);
                            }
                            [0, 0, 0, 0]
                        },
                    };
                    pixels.push(px);
                    i = i + 1;
                    proof {
                        assert(px_views(pixels@) =~= px_views(old_px).push(px@));
                        assert(px_views(old_px) + pixel_samples(sub_type, rem_px, (total - i
                            + 1) as nat) =~= px_views(pixels@) + pixel_samples(
                            sub_type,
                            reader.remaining(),
                            (total - i) as nat,
                        ));
                    }
                }
                let ghost px_before = pixels@;
                let ghost samples = pixel_samples(sub_type, r5, total as nat);
                proof {
                    assert(samples =~= px_views(px_before) + pixel_samples(
                        sub_type,
                        reader.remaining(),
                        0,
                    ));
                    assert(samples =~= px_views(px_before));
                    assert(reader.remaining() == pixels_rest(sub_type, r5, total as nat));
                }
                let final_pixels: Vec<[u8; 4]> = if is_tiled_chunk_type(file_type) {
                    deinterleave_tiles(&pixels, width, height)
                } else {
                    pixels
                };
                let sp = Sprite { width, height, pixels: final_pixels };
                let ghost m = chunk_sprite(file_type, sub_type, width, height, r5);
                proof {
                    if tiled_chunk_type(file_type) {
                        lemma_deinterleave_views(px_before, width as int, height as int);
                        assert(sp@.pixels =~= px_views(deinterleave_model(
                            px_before,
                            width as int,
                            height as int,
                        )));
                        assert(sp@.pixels == deinterleave_model(samples, width as int,
                        height as int));
                    } else {
                        assert(sp@.pixels == samples);
                    }
                    assert(sp@ =~= m);
                    let rest = parse_chunks(reader.remaining());
                    assert(parse_chunks(rem0).0 == seq![m] + rest.0);
                    assert(parse_chunks(rem0).1 == rest.1);
                }
                sprites.push(sp);
                proof {
                    assert(sprite_views(sprites@) =~= done.push(sp@));
                    assert(done + (seq![m] + parse_chunks(reader.remaining()).0)
                        =~= sprite_views(sprites@) + parse_chunks(reader.remaining()).0);
                }
            }
        }
    }
    proof {
        assert(parse_chunks(reader.remaining()).0 =~= seq![]);
        assert(parse_chunks(reader.remaining()).1 =~= seq![]);
        assert(sprite_views(sprites@) + parse_chunks(reader.remaining()).0 =~= sprite_views(
            sprites@,
        ));
        assert(bad@ + parse_chunks(reader.remaining()).1 =~= bad@);
    }
    (sprites, bad)
}

} // verus!
