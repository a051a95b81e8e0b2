use vstd::prelude::*;
use vstd::slice::{slice_subrange, slice_to_vec};
use crate::container::{parse_chunks, parse_container, Sprite, sprite_views};
use crate::error::TexError;
use crate::reader::be32;

verus! {

/// Magic bytes of the dictionary-based (SCLZ) compression scheme.
pub open spec fn sclz_magic(s: Seq<u8>) -> bool {
    s.len() >= 4 && s[0] == 83 && s[1] == 67 && s[2] == 76 && s[3] == 90
}

/// Magic bytes of a zstd frame.
pub open spec fn zstd_magic(s: Seq<u8>) -> bool {
    s.len() >= 4 && s[0] == 40 && s[1] == 181 && s[2] == 47 && s[3] == 253
}

/// The headerless-LZMA stream patched into standard form: four zero bytes
/// spliced in right after byte offset nine, so that the five-byte
/// properties header and four-byte size field are followed by the zero
/// half of an eight-byte size field.
pub open spec fn lzma_spliced(s: Seq<u8>) -> Seq<u8> {
    if s.len() >= 9 {
        s.take(9) + seq![0u8, 0u8, 0u8, 0u8] + s.skip(9)
    } else {
        s
    }
}

/// What decoding a zstd frame yields on a byte stream, if it succeeds.
pub uninterp spec fn zstd_decoded(s: Seq<u8>) -> Option<Seq<u8>>;

/// What LZMA decoding yields on a byte stream, if it succeeds.
pub uninterp spec fn lzma_decoded(s: Seq<u8>) -> Option<Seq<u8>>;

/// Relies on zstd::stream::copy_decode: decoding a zstd frame is a
/// function of the input bytes alone.
#[verifier::external_body]
fn zstd_decompress(data: &[u8]) -> (r: Option<Vec<u8>>)
    ensures
        r matches Some(v) ==> zstd_decoded(data@) == Some(v@),
        r is None ==> zstd_decoded(data@) is None,
{
    let mut out = Vec::new();
    match zstd::stream::copy_decode(data, &mut out) {
        Ok(()) => Some(out),
        Err(_) => None,
    }
}

/// Relies on lzma_rs::lzma_decompress: decoding an LZMA stream is a
/// function of the input bytes alone; the error carries the decoder's
/// diagnostic.
#[verifier::external_body]
fn lzma_decompress_bytes(data: &[u8]) -> (r: Result<Vec<u8>, String>)
    ensures
        r matches Ok(v) ==> lzma_decoded(data@) == Some(v@),
        r is Err ==> lzma_decoded(data@) is None,
{
    let mut out = Vec::new();
    match lzma_rs::lzma_decompress(&mut &data[..], &mut out) {
        Ok(()) => Ok(out),
        Err(e) => Err(format!("Failed to decompress file: {}", e)),
    }
}

/// Builds the patched LZMA stream: the first nine bytes, four zero bytes,
/// then the rest; a stream shorter than nine bytes is left as it is.
fn splice_lzma(data: &[u8]) -> (r: Vec<u8>)
    ensures
        r@ == lzma_spliced(data@),
{
    if data.len() >= 9 {
        let mut out: Vec<u8> = slice_to_vec(slice_subrange(data, 0, 9));
        out.push(0);
        out.push(0);
        out.push(0);
        out.push(0);
        let mut i: usize = 9;
        proof {
            assert(out@ =~= data@.take(9) + seq![0u8, 0u8, 0u8, 0u8] + data@.subrange(9, 9));
        }
        while i < data.len()
            invariant
                9 <= i <= data@.len(),
                out@ == data@.take(9) + seq![0u8, 0u8, 0u8, 0u8] + data@.subrange(9, i as int),
            decreases data@.len() - i,
        {
            out.push(data[i]);
            i = i + 1;
            proof {
                assert(out@ =~= data@.take(9) + seq![0u8, 0u8, 0u8, 0u8] + data@.subrange(
                    9,
                    i as int,
                ));
            }
        }
        proof {
            assert(data@.subrange(9, data@.len() as int) =~= data@.skip(9));
            assert(out@ =~= lzma_spliced(data@));
        }
        out
    } else {
        slice_to_vec(data)
    }
}

/// The outcome the decompression dispatch owes on a compressed payload:
/// the bytes the selected scheme yields, or `None` where that scheme fails
/// (the SCLZ arm needs the lzham codec, which is not available here, so it
/// never yields bytes).
pub open spec fn dispatch_decoded(s: Seq<u8>) -> Option<Seq<u8>> {
    if sclz_magic(s) {
        None
    } else if zstd_magic(s) {
        zstd_decoded(s)
    } else {
        lzma_decoded(lzma_spliced(s))
    }
}

/// Identifies the compression scheme wrapping `raw_data` by magic-byte
/// sniffing and reverses it.
///
/// The SCLZ arm fails with an explicit unsupported-platform
/// `DecompressionError`, since the lzham codec cannot be used here; a zstd
/// frame or the headerless-LZMA fallback fails with `DecompressionError`
/// exactly when the codec reports an error.
pub fn decompress(raw_data: &[u8]) -> (r: Result<Vec<u8>, TexError>)
    ensures
        r matches Ok(v) ==> dispatch_decoded(raw_data@) == Some(v@),
        r is Err ==> dispatch_decoded(raw_data@) is None,
        r matches Err(e) ==> e is DecompressionError,
{
    if raw_data.len() >= 4 && raw_data[0] == 83 && raw_data[1] == 67 && raw_data[2] == 76
        && raw_data[3] == 90 {
        Err(
            TexError::DecompressionError(
                "lzham decompression is not supported on this platform".to_string(),
            ),
        )
    } else if raw_data.len() >= 4 && raw_data[0] == 40 && raw_data[1] == 181 && raw_data[2] == 47
        && raw_data[3] == 253 {
        match zstd_decompress(raw_data) {
            Some(v) => Ok(v),
            None => Err(TexError::DecompressionError("Failed to decompress file".to_string())),
        }
    } else {
        let spliced = splice_lzma(raw_data);
        match lzma_decompress_bytes(spliced.as_slice()) {
            Ok(v) => Ok(v),
            Err(msg) => Err(TexError::DecompressionError(msg)),
        }
    }
}

/// The version field, read big-endian from bytes 2..6 of the container.
pub open spec fn header_version(s: Seq<u8>) -> u32 {
    be32(s[2], s[3], s[4], s[5])
}

/// The hash-length field, read big-endian from bytes 6..10.
pub open spec fn header_hash_len(s: Seq<u8>) -> u32 {
    be32(s[6], s[7], s[8], s[9])
}

/// The format versions whose payload is compressed.
pub open spec fn compressed_version(v: u32) -> bool {
    v == 0 || v == 1 || v == 3
}

/// The payload left after the `10 + hash-length`-byte header is sliced off.
pub open spec fn header_payload(s: Seq<u8>) -> Seq<u8> {
    s.skip(10 + header_hash_len(s) as int)
}

/// A container too short for its own header: under the 35-byte minimum, or
/// shorter than the header its hash-length field declares.
pub open spec fn too_short(s: Seq<u8>) -> bool {
    s.len() < 35 || 10 + header_hash_len(s) > s.len()
}

/// The decompressed chunk stream a container must yield, if any.
pub open spec fn container_decoded(s: Seq<u8>) -> Option<Seq<u8>> {
    if compressed_version(header_version(s)) {
        dispatch_decoded(header_payload(s))
    } else {
        Some(header_payload(s))
    }
}

/// Everything one container yields: the decoded sprites in container
/// order, and the unknown pixel sub-format codes of abandoned chunks.
pub struct Extraction {
    pub sprites: Vec<Sprite>,
    pub unknown_codes: Vec<u8>,
}

/// A four-byte big-endian integer read at offset `at`.
fn read_be32(data: &[u8], at: usize) -> (r: u32)
    requires
        at + 4 <= data@.len(),
    ensures
        r == be32(data@[at as int], data@[at + 1], data@[at + 2], data@[at + 3]),
{
    ((data[at] as u32) << 24) | ((data[at + 1] as u32) << 16) | ((data[at + 2] as u32) << 8) | (
    data[at + 3] as u32)
}

/// Decodes one raw texture container into its sprites.
///
/// An input shorter than 35 bytes, or shorter than the header its own
/// hash-length field declares, is rejected with `SizeError`. For the
/// compressed format versions the payload goes through the decompression
/// dispatch, failing with `DecompressionError` exactly when the selected
/// scheme does; any other version's payload is already the chunk stream.
/// The chunk stream is then parsed into sprites; an image chunk with an
/// unknown pixel sub-format is reported in `unknown_codes` without
/// stopping its siblings.
pub fn extract_sprites(raw_data: &[u8]) -> (r: Result<Extraction, TexError>)
    ensures
        too_short(raw_data@) <==> r == Err::<Extraction, TexError>(TexError::SizeError),
        !too_short(raw_data@) ==> (r is Ok <==> container_decoded(raw_data@) is Some),
        !too_short(raw_data@) ==> (r matches Err(e) ==> e is DecompressionError),
        r matches Ok(ex) ==> ({
            &&& container_decoded(raw_data@) matches Some(stream)
            &&& sprite_views(ex.sprites@) == parse_chunks(stream).0
            &&& ex.unknown_codes@ == parse_chunks(stream).1
        }),
{
    if raw_data.len() < 35 {
        return Err(TexError::SizeError);
    }
    let version = read_be32(raw_data, 2);
    let hash_length = read_be32(raw_data, 6);
    if 10 + (hash_length as u64) > (raw_data.len() as u64) {
        return Err(TexError::SizeError);
    }
    let start: usize = 10 + (hash_length as usize);
    let payload = slice_subrange(raw_data, start, raw_data.len());
    proof {
        assert(payload@ =~= header_payload(raw_data@));
    }
    let output: Vec<u8> = if version == 0 || version == 1 || version == 3 {
        match decompress(payload) {
            Ok(v) => v,
            Err(e) => {
                return Err(e);
            },
        }
    } else {
        slice_to_vec(payload)
    };
    let (sprites, unknown_codes) = parse_container(output.as_slice());
    Ok(Extraction { sprites, unknown_codes })
}

} // verus!
