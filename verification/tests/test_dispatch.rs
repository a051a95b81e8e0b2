use lzma_rs::compress::{Options, UnpackedSize};
use texdec::dispatch::{decompress, extract_sprites};
use texdec::error::TexError;

fn image_chunk(chunk_type: u8, sub: u8, w: u16, h: u16, pixel_bytes: &[u8]) -> Vec<u8> {
    let mut v = Vec::new();
    v.push(chunk_type);
    let size = (5 + pixel_bytes.len()) as u32;
    v.extend_from_slice(&size.to_le_bytes());
    v.push(sub);
    v.extend_from_slice(&w.to_le_bytes());
    v.extend_from_slice(&h.to_le_bytes());
    v.extend_from_slice(pixel_bytes);
    v
}

fn opaque_chunk(chunk_type: u8, payload: &[u8]) -> Vec<u8> {
    let mut v = Vec::new();
    v.push(chunk_type);
    v.extend_from_slice(&(payload.len() as u32).to_le_bytes());
    v.extend_from_slice(payload);
    v
}

fn build_container(version: u32, hash_len: u32, payload: &[u8]) -> Vec<u8> {
    let mut v = vec![0u8, 0];
    v.extend_from_slice(&version.to_be_bytes());
    v.extend_from_slice(&hash_len.to_be_bytes());
    for _ in 0..hash_len {
        v.push(0);
    }
    v.extend_from_slice(payload);
    v
}

#[test]
fn dispatcher_rejects_short_input() {
    for n in [0usize, 1, 10, 34] {
        let data = vec![0u8; n];
        let r = extract_sprites(&data);
        assert!(matches!(r, Err(TexError::SizeError)));
    }
}

#[test]
fn dispatcher_rejects_header_past_end() {
    let data = build_container(1, 4096, &[]);
    let data = &data[..40];
    let r = extract_sprites(data);
    assert!(matches!(r, Err(TexError::SizeError)));
}

#[test]
fn extract_zero_image_chunks_succeeds() {
    let mut stream = opaque_chunk(0, b"only metadata here");
    stream.extend(opaque_chunk(19, &[7; 12]));
    let container = build_container(9, 16, &stream);
    let ex = extract_sprites(&container).unwrap();
    assert_eq!(ex.sprites.len(), 0);
    assert_eq!(ex.unknown_codes.len(), 0);
}

#[test]
fn extract_skips_unknown_subtype_and_keeps_order() {
    let first: Vec<u8> = (0..16).collect();
    let third = [1u8, 2, 3];
    let mut stream = image_chunk(1, 0, 2, 2, &first);
    stream.extend(image_chunk(24, 9, 2, 2, &[10, 20, 30, 40]));
    stream.extend(image_chunk(24, 10, 3, 1, &third));
    let container = build_container(8, 16, &stream);
    let ex = extract_sprites(&container).unwrap();
    assert_eq!(ex.sprites.len(), 2);
    assert_eq!(ex.unknown_codes, vec![9]);
    assert_eq!(ex.sprites[0].pixels[3], [12, 13, 14, 15]);
    assert_eq!(ex.sprites[1].pixels[2], [3, 3, 3, 3]);
}

#[test]
fn extract_lzma_splice_round_trip() {
    let mut stream = image_chunk(1, 0, 2, 2, &(0..16).collect::<Vec<u8>>());
    stream.extend(opaque_chunk(5, b"trailing opaque data"));
    let options = Options {
        unpacked_size: UnpackedSize::WriteToHeader(Some(stream.len() as u64)),
    };
    let mut compressed = Vec::new();
    lzma_rs::lzma_compress_with_options(&mut &stream[..], &mut compressed, &options).unwrap();
    assert_eq!(&compressed[9..13], &[0, 0, 0, 0]);
    let mut headerless = compressed[..9].to_vec();
    headerless.extend_from_slice(&compressed[13..]);
    let recovered = decompress(&headerless).unwrap();
    assert_eq!(recovered, stream);
    let container = build_container(1, 16, &headerless);
    let ex = extract_sprites(&container).unwrap();
    assert_eq!(ex.sprites.len(), 1);
    assert_eq!(ex.sprites[0].width, 2);
    assert_eq!(ex.sprites[0].pixels[0], [0, 1, 2, 3]);
}

#[test]
fn extract_lzma_garbage_fails() {
    let payload = [1u8; 30];
    let container = build_container(0, 16, &payload);
    let r = extract_sprites(&container);
    assert!(matches!(r, Err(TexError::DecompressionError(_))));
}

#[test]
fn extract_zstd_frame() {
    let stream = image_chunk(1, 10, 2, 1, &[40, 50]);
    let compressed = zstd::stream::encode_all(&stream[..], 3).unwrap();
    assert_eq!(&compressed[..4], &[0x28, 0xB5, 0x2F, 0xFD]);
    let container = build_container(3, 16, &compressed);
    let ex = extract_sprites(&container).unwrap();
    assert_eq!(ex.sprites.len(), 1);
    assert_eq!(ex.sprites[0].pixels, vec![[40, 40, 40, 40], [50, 50, 50, 50]]);
}

#[test]
fn extract_zstd_malformed_frame_fails() {
    let mut payload = vec![0x28u8, 0xB5, 0x2F, 0xFD];
    payload.extend_from_slice(&[1, 2, 3, 4, 5, 6, 7, 8, 9, 10]);
    let container = build_container(0, 16, &payload);
    let r = extract_sprites(&container);
    assert!(matches!(r, Err(TexError::DecompressionError(_))));
}

#[test]
fn extract_sclz_reports_unsupported() {
    let mut payload = b"SCLZ".to_vec();
    payload.extend_from_slice(&[8, 0, 0, 0, 0, 1, 2, 3, 4, 5]);
    let container = build_container(1, 16, &payload);
    let r = extract_sprites(&container);
    assert!(matches!(r, Err(TexError::DecompressionError(_))));
}

#[test]
fn extract_uncompressed_version_passthrough() {
    let stream = image_chunk(28, 10, 1, 1, &[200]);
    let container = build_container(42, 16, &stream);
    let ex = extract_sprites(&container).unwrap();
    assert_eq!(ex.sprites.len(), 1);
    assert_eq!(ex.sprites[0].width, 1);
    assert_eq!(ex.sprites[0].height, 1);
    assert_eq!(ex.sprites[0].pixels, vec![[200, 200, 200, 200]]);
}
