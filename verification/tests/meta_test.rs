use jamtool::{meta_from_parsed, parse_jam_decrypted, validate_meta, JamError, JamTexture, MetaTexture};

fn put16(v: &mut Vec<u8>, x: u16) {
    v.push((x & 0xff) as u8);
    v.push((x >> 8) as u8);
}

fn record(left: u8, top: u8, w: u16, h: u16, qps: u16) -> Vec<u8> {
    let mut r = vec![left, top];
    put16(&mut r, 0);
    put16(&mut r, w);
    put16(&mut r, h);
    r.extend_from_slice(&[0u8; 8]);
    put16(&mut r, qps);
    r.extend_from_slice(&[0u8; 14]);
    r
}

fn two_textures() -> Vec<u8> {
    let mut v = Vec::new();
    put16(&mut v, 2);
    put16(&mut v, 3);
    v.extend(record(0, 0, 2, 1, 1));
    v.extend(record(4, 1, 3, 2, 2));
    v.extend_from_slice(&[5, 6, 7, 8]);
    v.extend_from_slice(&[1, 2, 3, 4, 5, 6, 7, 8]);
    v.extend_from_slice(&[0u8; 768]);
    v
}

fn tex(left: u8, top: u8, width: u16, height: u16, qps: u16) -> JamTexture {
    JamTexture {
        left,
        top,
        unk02: 0,
        width,
        height,
        unk08: 0,
        unk0a: 0,
        image_ptr: 0,
        unk0e: 0,
        quarter_palette_size: qps,
        texture_id: 0,
        transparent: 0,
        unk16: 0,
        unk17: 0,
        unk18: [0; 8],
    }
}

fn mt(tx: JamTexture, palette: Vec<u8>) -> MetaTexture {
    MetaTexture { tx, png_name: "x.png".to_string(), palette }
}

#[test]
fn builds_metadata_from_parsed_archive() {
    let p = parse_jam_decrypted("DTREES".to_string(), &two_textures()).unwrap();
    let meta = meta_from_parsed("DTREES", &p);
    assert_eq!(meta.stem, "DTREES");
    assert_eq!(meta.num_textures, 2);
    assert_eq!(meta.canvas_h, 3);
    assert_eq!(meta.textures.len(), 2);
    assert_eq!(meta.textures[0].png_name, "DTREES_0.png");
    assert_eq!(meta.textures[1].png_name, "DTREES_1.png");
    assert_eq!(meta.textures[0].palette, vec![5]);
    assert_eq!(meta.textures[1].palette, vec![1, 2]);
    assert_eq!(meta.textures[1].tx, p.textures[1]);
}

#[test]
fn validates_metadata() {
    let ok = validate_meta("S", vec![mt(tex(0, 2, 4, 3, 2), vec![1, 2]), mt(tex(10, 0, 1, 1, 0), vec![])])
        .unwrap();
    assert_eq!(ok.stem, "S");
    assert_eq!(ok.num_textures, 2);
    assert_eq!(ok.canvas_h, 5);
    assert_eq!(ok.textures.len(), 2);

    assert_eq!(validate_meta("S", vec![]), Err(JamError::NoTextures));
    assert_eq!(
        validate_meta("S", vec![mt(tex(0, 0, 1, 1, 0), vec![]), mt(tex(0, 0, 0, 1, 0), vec![])]),
        Err(JamError::InvalidTexture { texture: 1 })
    );
    assert_eq!(
        validate_meta("S", vec![mt(tex(0, 0, 1, 0, 0), vec![])]),
        Err(JamError::InvalidTexture { texture: 0 })
    );
    assert_eq!(
        validate_meta("S", vec![mt(tex(250, 0, 7, 1, 0), vec![])]),
        Err(JamError::InvalidTexture { texture: 0 })
    );
    assert_eq!(
        validate_meta("S", vec![mt(tex(0, 0, 1, 1, 257), vec![])]),
        Err(JamError::InvalidTexture { texture: 0 })
    );
    assert_eq!(
        validate_meta("S", vec![mt(tex(0, 0, 1, 1, 3), vec![1])]),
        Err(JamError::PaletteSizeMismatch { texture: 0, got: 1, expected: 3 })
    );
}

#[test]
fn checking_built_metadata_gives_it_back() {
    let p = parse_jam_decrypted("DTREES".to_string(), &two_textures()).unwrap();
    let meta = meta_from_parsed("DTREES", &p);
    let checked = validate_meta("DTREES", meta.textures.clone()).unwrap();
    assert_eq!(checked, meta);
}

#[test]
fn metadata_file_gives_names_and_haze0_palettes() {
    let p = parse_jam_decrypted("DTREES".to_string(), &two_textures()).unwrap();
    let f = jamtool::meta_file_from_parsed(b"DTREES", &p);
    let (stem, textures) = jamtool::meta_textures_from_file(f.clone()).unwrap();
    assert_eq!(stem, "DTREES");
    assert_eq!(textures[1].png_name, "DTREES_1.png");
    assert_eq!(textures[1].palette, vec![1, 2]);
    assert_eq!(textures[0].tx, p.textures[0]);
    let mut bad = f;
    bad.textures[0].png_name = vec![0xff, 0xfe];
    assert_eq!(jamtool::meta_textures_from_file(bad), Err(JamError::NameNotUtf8));
}
