use jamtool::{
    can_convert_to_global, can_encode_parsed, canvas_to_global_indices, decrypt_encrypt_jam,
    encode_parsed_global, export_fits, export_zip_texture, extract_texture_image, global_to_local_indices,
    is_consistent, local_to_global_indices, parse_jam_decrypted, quantize_rgba_to_indices,
    texture_skip_reason, JamError, SkipReason,
};

fn put16(v: &mut Vec<u8>, x: u16) {
    v.push((x & 0xff) as u8);
    v.push((x >> 8) as u8);
}

fn record(left: u8, top: u8, w: u16, h: u16, qps: u16) -> Vec<u8> {
    let mut r = vec![left, top];
    put16(&mut r, 0);
    put16(&mut r, w);
    put16(&mut r, h);
    r.extend_from_slice(&[0u8; 8]);
    put16(&mut r, qps);
    r.extend_from_slice(&[0u8; 14]);
    r
}

/// Four textures: a good one, one leaving the canvas, one with an empty palette, an empty one.
fn archive() -> Vec<u8> {
    let mut v = Vec::new();
    put16(&mut v, 4);
    put16(&mut v, 2);
    v.extend(record(0, 0, 2, 2, 2));
    v.extend(record(0, 1, 1, 2, 0));
    v.extend(record(8, 0, 1, 1, 0));
    v.extend(record(9, 0, 0, 1, 1));
    v.extend_from_slice(&[30, 40, 0, 0, 0, 0, 0, 0]);
    v.extend_from_slice(&[2, 2, 2, 2]);
    let mut canvas = vec![0u8; 512];
    canvas[0] = 1;
    canvas[1] = 0;
    canvas[256] = 0;
    canvas[257] = 1;
    v.extend_from_slice(&canvas);
    v
}

fn grey_palette() -> Vec<u8> {
    (0..768).map(|i| (i / 3) as u8).collect()
}

#[test]
fn skip_reasons() {
    let p = parse_jam_decrypted("A".to_string(), &archive()).unwrap();
    assert!(is_consistent(&p));
    assert_eq!(texture_skip_reason(&p, 0), None);
    assert_eq!(texture_skip_reason(&p, 1), Some(SkipReason::InvalidGeometry));
    assert_eq!(texture_skip_reason(&p, 2), Some(SkipReason::InvalidPaletteSize));
    assert_eq!(texture_skip_reason(&p, 3), Some(SkipReason::InvalidGeometry));
}

#[test]
fn bounds_checks() {
    let p = parse_jam_decrypted("A".to_string(), &archive()).unwrap();
    assert!(can_convert_to_global(&p));
    let global = grey_palette();
    assert!(export_fits(&p, 0, 0, &global));
    assert!(export_fits(&p, 0, 3, &global));
    assert!(export_fits(&p, 0, 5, &global));
    assert!(!export_fits(&p, 0, 6, &global));
    assert!(!export_fits(&p, 1, 0, &global));
    assert!(!export_fits(&p, 9, 0, &global));
    assert!(!export_fits(&p, 0, 0, &global[..100]));
    let mut broken = p.clone();
    broken.palette_data.truncate(3);
    assert!(!is_consistent(&broken));
    assert!(!can_convert_to_global(&broken));
    let mut low = p.clone();
    low.canvas.truncate(256);
    assert!(!can_convert_to_global(&low));
    assert!(!can_encode_parsed(&low));
}

#[test]
fn global_local_roundtrip() {
    let pal = [9u8, 4, 7, 4];
    let img = [4u8, 7, 9, 7, 5];
    let local = global_to_local_indices(&img, &pal);
    assert_eq!(local, vec![1, 2, 0, 2, 0]);
    assert_eq!(local_to_global_indices(&local[..4], &pal, 4), vec![4, 7, 9, 7]);
}

#[test]
fn exports_zip_textures() {
    let mut p = parse_jam_decrypted("A".to_string(), &archive()).unwrap();
    p.canvas = canvas_to_global_indices(&p);
    assert_eq!(extract_texture_image(&p, 0), vec![40, 30, 30, 40]);
    let global = grey_palette();
    let (name, bytes) = export_zip_texture(&p, "EDIT", 0, &global).unwrap().unwrap();
    assert_eq!(name, "EDIT_0.png");
    assert_eq!(&bytes[1..4], b"PNG");
    assert_eq!(export_zip_texture(&p, "EDIT", 1, &global), Ok(None));
    assert_eq!(export_zip_texture(&p, "EDIT", 2, &global), Ok(None));
}

#[test]
fn editor_save_then_load() {
    let mut p = parse_jam_decrypted("A".to_string(), &archive()).unwrap();
    p.canvas = canvas_to_global_indices(&p);
    p.textures.truncate(1);
    p.num_textures = 1;
    p.canvas[0] = 200;
    assert!(can_encode_parsed(&p));
    let mut jam = encode_parsed_global(&p).unwrap();
    decrypt_encrypt_jam(&mut jam);
    let mut q = parse_jam_decrypted("B".to_string(), &jam).unwrap();
    assert!(can_convert_to_global(&q));
    q.canvas = canvas_to_global_indices(&q);
    assert_eq!(extract_texture_image(&q, 0), vec![200, 30, 30, 40]);
    assert_eq!(q.textures[0].quarter_palette_size, 3);
}

#[test]
fn quantizes_to_nearest_colour() {
    let global = grey_palette();
    let rgba = [10u8, 10, 10, 255, 0, 0, 255, 255, 200, 201, 202, 0, 100, 102, 104, 9];
    assert_eq!(quantize_rgba_to_indices(&rgba, 10, &global), Ok(vec![10, 85, 0, 0]));
    assert_eq!(quantize_rgba_to_indices(&rgba, 9, &global), Ok(vec![10, 85, 0, 102]));
    assert_eq!(quantize_rgba_to_indices(&rgba[..3], 0, &global), Err(JamError::RgbaLength));
    assert_eq!(quantize_rgba_to_indices(&[], 0, &global), Ok(vec![]));
}

#[test]
fn zip_export_lists_json_then_exported_textures() {
    let p = parse_jam_decrypted("A".to_string(), &archive()).unwrap();
    let mut g = p.clone();
    g.canvas = canvas_to_global_indices(&p);
    let pal = grey_palette();
    assert!(jamtool::zip_export_fits(&g, &pal));
    let files = jamtool::export_zip_files(&g, "A", &pal, b"{}".to_vec());
    let names: Vec<&str> = files.iter().map(|(n, _)| n.as_str()).collect();
    assert_eq!(names, vec!["A.json", "A_0.png"]);
    assert_eq!(files[0].1, b"{}".to_vec());
    let (_, png0) = export_zip_texture(&g, "A", 0, &pal).unwrap().unwrap();
    assert_eq!(files[1].1, png0);
}

#[test]
fn editor_decode_gives_global_canvas() {
    let mut data = archive();
    decrypt_encrypt_jam(&mut data);
    assert!(jamtool::editor_bytes_fit(&data));
    let q = jamtool::decode_for_editor("boh".to_string(), data).unwrap();
    let p = parse_jam_decrypted("boh".to_string(), &archive()).unwrap();
    assert_eq!(q.stem, "boh");
    assert_eq!(q.textures, p.textures);
    assert_eq!(q.canvas, canvas_to_global_indices(&p));
    assert_eq!(extract_texture_image(&q, 0), vec![40, 30, 30, 40]);
    assert_eq!(jamtool::decode_for_editor("x".to_string(), vec![1, 2]), Err(JamError::HeaderTooSmall));
}
