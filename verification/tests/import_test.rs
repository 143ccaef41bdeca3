use jamtool::png::read_indexed_png8;
use jamtool::{
    canvas_to_global_indices, decrypt_encrypt_jam, encode, export_zip_texture, extract_texture_image,
    import_archive, import_images, meta_from_parsed, parse_jam_decrypted, validate_meta, JamError, JamMeta,
    JamTexture, MetaTexture,
};

fn png_bytes(w: u32, h: u32, color: png::ColorType, depth: png::BitDepth, data: &[u8]) -> Vec<u8> {
    let mut out = Vec::new();
    {
        let mut enc = png::Encoder::new(&mut out, w, h);
        enc.set_color(color);
        enc.set_depth(depth);
        if color == png::ColorType::Indexed {
            enc.set_palette(vec![0u8; 768]);
        }
        let mut writer = enc.write_header().unwrap();
        writer.write_image_data(data).unwrap();
    }
    out
}

fn indexed8(w: u32, h: u32, data: &[u8]) -> Vec<u8> {
    png_bytes(w, h, png::ColorType::Indexed, png::BitDepth::Eight, data)
}

fn tex(left: u8, top: u8, width: u16, height: u16, qps: u16) -> JamTexture {
    JamTexture {
        left,
        top,
        unk02: 0,
        width,
        height,
        unk08: 0,
        unk0a: 0,
        image_ptr: 0,
        unk0e: 0,
        quarter_palette_size: qps,
        texture_id: 7,
        transparent: 0,
        unk16: 0,
        unk17: 0,
        unk18: [0; 8],
    }
}

fn one_texture_meta() -> JamMeta {
    JamMeta {
        stem: "T".to_string(),
        num_textures: 1,
        canvas_h: 1,
        textures: vec![MetaTexture { tx: tex(0, 0, 2, 1, 2), png_name: "T_0.png".to_string(), palette: vec![30, 40] }],
    }
}

#[test]
fn reads_8bit_indexed_png() {
    let (px, w, h) = read_indexed_png8(&indexed8(2, 1, &[1, 0])).unwrap();
    assert_eq!((px, w, h), (vec![1, 0], 2, 1));
}

#[test]
fn refuses_other_pngs_in_order() {
    assert_eq!(read_indexed_png8(&[1, 2, 3]), Err(JamError::PngDecoding));
    let rgb = png_bytes(1, 1, png::ColorType::Rgb, png::BitDepth::Eight, &[1, 2, 3]);
    assert_eq!(read_indexed_png8(&rgb), Err(JamError::PngNotIndexed));
    let four = png_bytes(2, 1, png::ColorType::Indexed, png::BitDepth::Four, &[0x10]);
    assert_eq!(read_indexed_png8(&four), Err(JamError::PngBitDepth));
}

#[test]
fn imports_images_through_haze0_palette() {
    let meta = one_texture_meta();
    let imgs = import_images(&meta, &[indexed8(2, 1, &[1, 0])], true).unwrap();
    assert_eq!(imgs, vec![vec![40, 30]]);
    // an index not below the palette size stands for 0
    let imgs = import_images(&meta, &[indexed8(2, 1, &[5, 1])], true).unwrap();
    assert_eq!(imgs, vec![vec![0, 40]]);
}

#[test]
fn import_errors() {
    let meta = one_texture_meta();
    assert_eq!(import_images(&meta, &[], true), Err(JamError::TextureCountMismatch));
    assert_eq!(
        import_images(&meta, &[indexed8(3, 1, &[0, 0, 0])], true),
        Err(JamError::PngDimensionMismatch { texture: 0, width: 3, height: 1 })
    );
    assert_eq!(import_images(&meta, &[vec![0u8; 4]], true), Err(JamError::PngDecoding));
}

fn put16(v: &mut Vec<u8>, x: u16) {
    v.push((x & 0xff) as u8);
    v.push((x >> 8) as u8);
}

fn record(left: u8, top: u8, w: u16, h: u16, qps: u16) -> Vec<u8> {
    let mut r = vec![left, top];
    put16(&mut r, 0);
    put16(&mut r, w);
    put16(&mut r, h);
    r.extend_from_slice(&[0u8; 8]);
    put16(&mut r, qps);
    r.extend_from_slice(&[0u8; 14]);
    r
}

fn grey_palette() -> Vec<u8> {
    (0..768).map(|i| (i / 3) as u8).collect()
}

#[test]
fn export_then_import_gives_images_back() {
    let mut v = Vec::new();
    put16(&mut v, 2);
    put16(&mut v, 2);
    v.extend(record(0, 0, 2, 2, 2));
    v.extend(record(4, 0, 3, 1, 3));
    v.extend_from_slice(&[30, 40, 31, 41, 32, 42, 33, 43]);
    v.extend_from_slice(&[5, 6, 7, 0, 0, 0, 0, 0, 0, 0, 0, 0]);
    let mut canvas = vec![0u8; 512];
    canvas[0] = 1;
    canvas[1] = 0;
    canvas[256] = 1;
    canvas[257] = 1;
    canvas[4] = 2;
    canvas[5] = 0;
    canvas[6] = 1;
    v.extend_from_slice(&canvas);
    let mut p = parse_jam_decrypted("TRK".to_string(), &v).unwrap();
    p.canvas = canvas_to_global_indices(&p);
    let global = grey_palette();
    let mut pngs = Vec::new();
    for t in 0..2 {
        let (_, bytes) = export_zip_texture(&p, "TRK", t, &global).unwrap().unwrap();
        pngs.push(bytes);
    }
    let meta = meta_from_parsed("TRK", &p);
    let meta = validate_meta("TRK", meta.textures).unwrap();
    let q = import_archive(&meta, &pngs).unwrap();
    assert_eq!(extract_texture_image(&q, 0), vec![40, 30, 40, 40]);
    assert_eq!(extract_texture_image(&q, 1), vec![7, 5, 6]);
    for t in 0..2 {
        assert_eq!(extract_texture_image(&q, t), extract_texture_image(&p, t));
    }
}

#[test]
fn overlapping_textures_keep_records_and_palettes() {
    let meta = JamMeta {
        stem: "O".to_string(),
        num_textures: 2,
        canvas_h: 1,
        textures: vec![
            MetaTexture { tx: tex(0, 0, 1, 1, 0), png_name: String::new(), palette: vec![] },
            MetaTexture { tx: tex(0, 0, 1, 1, 0), png_name: String::new(), palette: vec![] },
        ],
    };
    let (m, jam) = encode(&meta, &[vec![9], vec![7]]).unwrap();
    let mut d = jam;
    decrypt_encrypt_jam(&mut d);
    let p = parse_jam_decrypted("O".to_string(), &d).unwrap();
    assert_eq!(p.num_textures, 2);
    assert_eq!(p.textures[0], m.textures[0].tx);
    assert_eq!(p.textures[1], m.textures[1].tx);
    assert_eq!(p.palette_data, vec![9, 9, 9, 9, 7, 7, 7, 7]);
}

#[test]
fn empty_texture_across_another_keeps_images() {
    let meta = JamMeta {
        stem: "E".to_string(),
        num_textures: 2,
        canvas_h: 1,
        textures: vec![
            MetaTexture { tx: tex(0, 0, 0, 1, 0), png_name: String::new(), palette: vec![] },
            MetaTexture { tx: tex(0, 0, 2, 1, 0), png_name: String::new(), palette: vec![] },
        ],
    };
    let (_, jam) = encode(&meta, &[vec![], vec![5, 6]]).unwrap();
    let mut d = jam;
    decrypt_encrypt_jam(&mut d);
    let mut p = parse_jam_decrypted("E".to_string(), &d).unwrap();
    p.canvas = canvas_to_global_indices(&p);
    assert_eq!(extract_texture_image(&p, 0), Vec::<u8>::new());
    assert_eq!(extract_texture_image(&p, 1), vec![5, 6]);
}

#[test]
fn zip_import_accepts_any_indexed_depth() {
    let meta = JamMeta {
        stem: "N".to_string(),
        num_textures: 1,
        canvas_h: 1,
        textures: vec![MetaTexture { tx: tex(0, 0, 1, 1, 2), png_name: "N_0.png".to_string(), palette: vec![30, 40] }],
    };
    // one pixel, 4 bits: the byte 0x10 holds index 1
    let four = png_bytes(1, 1, png::ColorType::Indexed, png::BitDepth::Four, &[0x10]);
    assert_eq!(import_images(&meta, &[four.clone()], true), Err(JamError::PngBitDepth));
    assert_eq!(import_images(&meta, &[four.clone()], false), Ok(vec![vec![0]]));
    let q = import_archive(&meta, &[four]).unwrap();
    assert_eq!(extract_texture_image(&q, 0), vec![0]);
}
