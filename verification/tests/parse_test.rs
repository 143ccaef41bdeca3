use jamtool::{
    canvas_to_global_indices, decode_jam_bytes, decrypt_encrypt_jam, extract_texture_image,
    local_to_global_indices, parse_jam_decrypted, texture_palette_offset, JamError,
};

fn put16(v: &mut Vec<u8>, x: u16) {
    v.push((x & 0xff) as u8);
    v.push((x >> 8) as u8);
}

/// One texture of 2x1 pixels at (1, 0) on a canvas of 2 rows, haze palettes of 2 entries.
fn sample_jam() -> Vec<u8> {
    let mut v = Vec::new();
    put16(&mut v, 1);
    put16(&mut v, 2);
    v.push(1);
    v.push(0);
    put16(&mut v, 0x0102);
    put16(&mut v, 2);
    put16(&mut v, 1);
    put16(&mut v, 3);
    put16(&mut v, 10496);
    put16(&mut v, 5);
    put16(&mut v, 6);
    put16(&mut v, 2);
    put16(&mut v, 77);
    put16(&mut v, 8);
    v.push(40);
    v.push(72);
    v.extend_from_slice(&[1, 2, 3, 4, 5, 6, 7, 8]);
    v.extend_from_slice(&[10, 20, 11, 21, 12, 22, 13, 23]);
    let mut canvas = vec![0u8; 512];
    canvas[1] = 0;
    canvas[2] = 1;
    canvas[300] = 9;
    v.extend_from_slice(&canvas);
    v.extend_from_slice(&[0xee, 0xee]);
    v
}

#[test]
fn parses_sample_archive() {
    let jam = sample_jam();
    let p = parse_jam_decrypted("SAMPLE".to_string(), &jam).expect("parses");
    assert_eq!(p.stem, "SAMPLE");
    assert_eq!(p.num_textures, 1);
    assert_eq!(p.canvas_h, 2);
    assert_eq!(p.textures.len(), 1);
    let tx = p.textures[0];
    assert_eq!((tx.left, tx.top, tx.unk02, tx.width, tx.height), (1, 0, 0x0102, 2, 1));
    assert_eq!((tx.unk08, tx.unk0a, tx.image_ptr, tx.unk0e), (3, 10496, 5, 6));
    assert_eq!((tx.quarter_palette_size, tx.texture_id, tx.transparent), (2, 77, 8));
    assert_eq!((tx.unk16, tx.unk17), (40, 72));
    assert_eq!(tx.unk18, [1, 2, 3, 4, 5, 6, 7, 8]);
    assert_eq!(p.palette_data, vec![10, 20, 11, 21, 12, 22, 13, 23]);
    assert_eq!(p.canvas.len(), 512);
    assert_eq!(p.canvas[300], 9);
}

#[test]
fn converts_and_extracts_sample_texture() {
    let p = parse_jam_decrypted("S".to_string(), &sample_jam()).unwrap();
    assert_eq!(texture_palette_offset(&p, 0), 0);
    assert_eq!(texture_palette_offset(&p, 1), 8);
    assert_eq!(extract_texture_image(&p, 0), vec![0, 1]);
    let global = canvas_to_global_indices(&p);
    assert_eq!(global.len(), 512);
    assert_eq!(&global[0..4], &[0, 10, 20, 0]);
    assert_eq!(global[300], 9);
    let mut q = p.clone();
    q.canvas = global;
    assert_eq!(extract_texture_image(&q, 0), vec![10, 20]);
}

#[test]
fn conversion_leaves_out_of_palette_values() {
    let mut jam = sample_jam();
    // pixel (2, 0) holds 5, which is not below the haze palette size 2
    jam[4 + 32 + 8 + 2] = 5;
    let p = parse_jam_decrypted("S".to_string(), &jam).unwrap();
    let global = canvas_to_global_indices(&p);
    assert_eq!(&global[0..4], &[0, 10, 5, 0]);
}

#[test]
fn parse_errors() {
    assert_eq!(
        parse_jam_decrypted("S".to_string(), &[1, 2, 3]),
        Err(JamError::HeaderTooSmall)
    );
    assert_eq!(
        parse_jam_decrypted("S".to_string(), &[0, 0, 0, 0]),
        Err(JamError::ZeroCanvasHeight)
    );
    let mut v = vec![2, 0, 1, 0];
    v.extend_from_slice(&[0u8; 32]);
    assert_eq!(parse_jam_decrypted("S".to_string(), &v), Err(JamError::HeadersTruncated));

    let mut big = sample_jam();
    big[4 + 16] = 0x2c;
    big[4 + 17] = 0x01;
    assert_eq!(
        parse_jam_decrypted("S".to_string(), &big),
        Err(JamError::PaletteQuarterTooLarge { texture: 0, qps: 300 })
    );

    let short = sample_jam()[..4 + 32 + 8 + 511].to_vec();
    assert_eq!(
        parse_jam_decrypted("S".to_string(), &short),
        Err(JamError::StreamTruncated { num_textures: 1, canvas_h: 2, len: 555 })
    );
}

#[test]
fn decodes_encrypted_bytes() {
    assert_eq!(decode_jam_bytes("S".to_string(), Vec::new()), Err(JamError::FileTooSmall));
    let mut enc = sample_jam();
    decrypt_encrypt_jam(&mut enc);
    let p = decode_jam_bytes("S".to_string(), enc).unwrap();
    assert_eq!(p, parse_jam_decrypted("S".to_string(), &sample_jam()).unwrap());
}

#[test]
fn local_to_global_maps_in_range_indices() {
    let pal = [7u8, 8, 9];
    assert_eq!(local_to_global_indices(&[0, 2, 1, 3], &pal, 3), vec![7, 9, 8, 0]);
    assert_eq!(local_to_global_indices(&[0, 1], &pal, 4), vec![0, 0]);
    assert_eq!(local_to_global_indices(&[0, 1, 2], &pal, 2), vec![7, 8, 0]);
}
