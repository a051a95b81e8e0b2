use vstd::prelude::*;
use crate::error::TexError;
use crate::reader::{Reader, skip_clamped, u16_val, u8_val};

verus! {

/// The pixel sub-format codes the codec understands.
pub open spec fn known_pixel_code(code: u8) -> bool {
    code == 0 || code == 1 || code == 2 || code == 3 || code == 4 || code == 6 || code == 10
}

/// How many bytes one packed sample of a given sub-format occupies.
pub open spec fn pixel_byte_width(code: u8) -> int {
    if code == 0 || code == 1 {
        4
    } else if code == 2 || code == 3 || code == 4 || code == 6 {
        2
    } else if code == 10 {
        1
    } else {
        0
    }
}

/// Byte `i` of `s`, or 0 past the end (the zero-pad policy of short reads).
pub open spec fn byte_at(s: Seq<u8>, i: int) -> u8 {
    if i < s.len() {
        s[i]
    } else {
        0
    }
}

/// The RGBA sample decoded from the head of stream `s` under sub-format
/// `code`; bit-exact per the packed layouts, with channels spread toward the
/// most significant end of each output byte.
pub open spec fn sample_of(code: u8, s: Seq<u8>) -> Seq<u8> {
    if code == 0 || code == 1 {
        seq![byte_at(s, 0), byte_at(s, 1), byte_at(s, 2), byte_at(s, 3)]
    } else if code == 2 {
        let p = u16_val(s);
        seq![
            (((p >> 12) & 0xF) << 4) as u8,
            (((p >> 8) & 0xF) << 4) as u8,
            (((p >> 4) & 0xF) << 4) as u8,
            ((p & 0xF) << 4) as u8,
        ]
    } else if code == 3 {
        let p = u16_val(s);
        seq![
            (((p >> 11) & 0x1F) << 3) as u8,
            (((p >> 6) & 0x1F) << 3) as u8,
            (((p >> 1) & 0x1F) << 3) as u8,
            ((p & 0xFF) << 7) as u8,
        ]
    } else if code == 4 {
        let p = u16_val(s);
        seq![
            (((p >> 11) & 0x1F) << 3) as u8,
            (((p >> 5) & 0x3F) << 2) as u8,
            ((p & 0x1F) << 3) as u8,
            255u8,
        ]
    } else if code == 6 {
        let p = u16_val(s);
        seq![(p >> 8) as u8, (p >> 8) as u8, (p >> 8) as u8, (p & 0xFF) as u8]
    } else if code == 10 {
        let b = u8_val(s);
        seq![b, b, b, b]
    } else {
        seq![]
    }
}

/// Whether `code` is a recognized pixel sub-format.
pub fn pixel_code_known(code: u8) -> (r: bool)
    ensures
        r == known_pixel_code(code),
{
    code == 0 || code == 1 || code == 2 || code == 3 || code == 4 || code == 6 || code == 10
}

/// Reads one packed sample from the stream and returns its RGBA decoding.
///
/// Exactly the sub-format's byte width is consumed (clamped at end of
/// stream, missing bytes counting as zero). An unrecognized sub-format
/// consumes nothing and yields `UnknownPixel` carrying the code.
pub fn convert_pixel(reader: &mut Reader, pixel_type: u8) -> (r: Result<[u8; 4], TexError>)
    requires
        old(reader).wf(),
    ensures
        final(reader).wf(),
        final(reader).total() == old(reader).total(),
        known_pixel_code(pixel_type) ==> (r matches Ok(px)
            && px@ == sample_of(pixel_type, old(reader).remaining())
            && final(reader).remaining() == skip_clamped(
            old(reader).remaining(),
            pixel_byte_width(pixel_type),
        )),
        !known_pixel_code(pixel_type) ==> (r matches Err(e)
            && e == TexError::UnknownPixel(pixel_type)
            && *final(reader) == *old(reader)),
{
    match pixel_type {
        0 | 1 => {
            let pixel = reader.read(4);
            let b0 = if pixel.len() > 0 { pixel[0] } else { 0 };
            let b1 = if pixel.len() > 1 { pixel[1] } else { 0 };
            let b2 = if pixel.len() > 2 { pixel[2] } else { 0 };
            let b3 = if pixel.len() > 3 { pixel[3] } else { 0 };
            let r = [b0, b1, b2, b3];
            proof {
                assert(r@ =~= sample_of(pixel_type, old(reader).remaining()));
            }
            Ok(r)
        }
        2 => {
            let pixel = reader.read_uint16();
            let r = [
                (((pixel >> 12) & 0xF) << 4) as u8,
                (((pixel >> 8) & 0xF) << 4) as u8,
                (((pixel >> 4) & 0xF) << 4) as u8,
                ((pixel & 0xF) << 4) as u8,
            ];
            proof {
                assert(r@ =~= sample_of(pixel_type, old(reader).remaining()));
            }
            Ok(r)
        }
        3 => {
            let pixel = reader.read_uint16();
            let r = [
                (((pixel >> 11) & 0x1F) << 3) as u8,
                (((pixel >> 6) & 0x1F) << 3) as u8,
                (((pixel >> 1) & 0x1F) << 3) as u8,
                ((pixel & 0xFF) << 7) as u8,
            ];
            proof {
                assert(r@ =~= sample_of(pixel_type, old(reader).remaining()));
            }
            Ok(r)
        }
        4 => {
            let pixel = reader.read_uint16();
            let r = [
                (((pixel >> 11) & 0x1F) << 3) as u8,
                (((pixel >> 5) & 0x3F) << 2) as u8,
                ((pixel & 0x1F) << 3) as u8,
                255,
            ];
            proof {
                assert(r@ =~= sample_of(pixel_type, old(reader).remaining()));
            }
            Ok(r)
        }
        6 => {
            let pixel = reader.read_uint16();
            let r = [
                (pixel >> 8) as u8,
                (pixel >> 8) as u8,
                (pixel >> 8) as u8,
                (pixel & 0xFF) as u8,
            ];
            proof {
                assert(r@ =~= sample_of(pixel_type, old(reader).remaining()));
            }
            Ok(r)
        }
        10 => {
            let pixel = reader.read_byte();
            let r = [pixel, pixel, pixel, pixel];
            proof {
                assert(r@ =~= sample_of(pixel_type, old(reader).remaining()));
            }
            Ok(r)
        }
        _ => Err(TexError::UnknownPixel(pixel_type)),
    }
}

} // verus!
