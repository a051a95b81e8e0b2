use texdec::container::parse_container;

fn image_chunk(chunk_type: u8, sub: u8, w: u16, h: u16, pixel_bytes: &[u8]) -> Vec<u8> {
    let mut v = Vec::new();
    v.push(chunk_type);
    let size = (5 + pixel_bytes.len()) as u32;
    v.extend_from_slice(&size.to_le_bytes());
    v.push(sub);
    v.extend_from_slice(&w.to_le_bytes());
    v.extend_from_slice(&h.to_le_bytes());
    v.extend_from_slice(pixel_bytes);
    v
}

fn opaque_chunk(chunk_type: u8, payload: &[u8]) -> Vec<u8> {
    let mut v = Vec::new();
    v.push(chunk_type);
    v.extend_from_slice(&(payload.len() as u32).to_le_bytes());
    v.extend_from_slice(payload);
    v
}

#[test]
fn container_all_opaque_yields_nothing() {
    let mut stream = opaque_chunk(0, b"metadata");
    stream.extend(opaque_chunk(100, &[1, 2, 3, 4]));
    stream.extend(opaque_chunk(2, &[]));
    let (sprites, bad) = parse_container(&stream);
    assert_eq!(sprites.len(), 0);
    assert_eq!(bad.len(), 0);
}

#[test]
fn container_decodes_image_between_opaque_chunks() {
    let pixel_bytes: Vec<u8> = (0..16).collect();
    let mut stream = opaque_chunk(3, b"skip me");
    stream.extend(image_chunk(1, 0, 2, 2, &pixel_bytes));
    stream.extend(opaque_chunk(50, b"tail"));
    let (sprites, bad) = parse_container(&stream);
    assert_eq!(sprites.len(), 1);
    assert_eq!(bad.len(), 0);
    assert_eq!(sprites[0].width, 2);
    assert_eq!(sprites[0].height, 2);
    assert_eq!(
        sprites[0].pixels,
        vec![[0, 1, 2, 3], [4, 5, 6, 7], [8, 9, 10, 11], [12, 13, 14, 15]],
    );
}

#[test]
fn container_skips_unknown_subtype_and_keeps_siblings() {
    let first: Vec<u8> = (0..16).collect();
    let third = [11u8, 22, 33];
    let mut stream = image_chunk(1, 0, 2, 2, &first);
    stream.extend(image_chunk(24, 9, 2, 2, &[0xDE, 0xAD, 0xBE, 0xEF]));
    stream.extend(image_chunk(24, 10, 3, 1, &third));
    let (sprites, bad) = parse_container(&stream);
    assert_eq!(sprites.len(), 2);
    assert_eq!(bad, vec![9]);
    assert_eq!(sprites[0].width, 2);
    assert_eq!(sprites[0].pixels[0], [0, 1, 2, 3]);
    assert_eq!(sprites[1].width, 3);
    assert_eq!(sprites[1].height, 1);
    assert_eq!(
        sprites[1].pixels,
        vec![[11, 11, 11, 11], [22, 22, 22, 22], [33, 33, 33, 33]],
    );
}

#[test]
fn container_truncated_pixels_read_as_zero() {
    let stream = image_chunk(1, 0, 2, 2, &[9, 8, 7, 6, 5]);
    let (sprites, bad) = parse_container(&stream);
    assert_eq!(sprites.len(), 1);
    assert_eq!(bad.len(), 0);
    assert_eq!(
        sprites[0].pixels,
        vec![[9, 8, 7, 6], [5, 0, 0, 0], [0, 0, 0, 0], [0, 0, 0, 0]],
    );
}

#[test]
fn container_tiled_chunk_is_deinterleaved() {
    let w = 33usize;
    let h = 2usize;
    let grid: Vec<u8> = (0..(w * h) as u8).collect();
    let bs = 32usize;
    let w_limit = (w + bs - 1) / bs;
    let mut stored = Vec::new();
    for tw in 0..w_limit {
        for y in 0..h {
            let mut x = tw * bs;
            while x != (tw + 1) * bs && x < w {
                stored.push(grid[y * w + x]);
                x += 1;
            }
        }
    }
    let stream = image_chunk(27, 10, w as u16, h as u16, &stored);
    let (sprites, bad) = parse_container(&stream);
    assert_eq!(sprites.len(), 1);
    assert_eq!(bad.len(), 0);
    let expected: Vec<[u8; 4]> = grid.iter().map(|&v| [v, v, v, v]).collect();
    assert_eq!(sprites[0].pixels, expected);
}

#[test]
fn container_empty_stream() {
    let (sprites, bad) = parse_container(&[]);
    assert_eq!(sprites.len(), 0);
    assert_eq!(bad.len(), 0);
}
