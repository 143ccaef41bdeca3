use jamtool::{
    canvas_to_global_indices, decrypt_encrypt_jam, encode, extract_texture_image, parse_jam_decrypted,
    JamError, JamMeta, JamTexture, MetaTexture,
};

fn tex(left: u8, top: u8, width: u16, height: u16, qps: u16) -> JamTexture {
    JamTexture {
        left,
        top,
        unk02: 0,
        width,
        height,
        unk08: 0,
        unk0a: 10496,
        image_ptr: 0,
        unk0e: 0,
        quarter_palette_size: qps,
        texture_id: 1000 + left as u16,
        transparent: 0,
        unk16: 0,
        unk17: 201,
        unk18: [0, 0, 0, 0, 0, 0, 0, 9],
    }
}

fn meta_of(txs: Vec<JamTexture>, canvas_h: u16) -> JamMeta {
    JamMeta {
        stem: "CAR".to_string(),
        num_textures: txs.len() as u16,
        canvas_h,
        textures: txs
            .into_iter()
            .enumerate()
            .map(|(t, tx)| MetaTexture { tx, png_name: format!("CAR_{}.png", t), palette: vec![] })
            .collect(),
    }
}

#[test]
fn encode_then_decode_gives_images_back() {
    let meta = meta_of(vec![tex(0, 0, 3, 2, 1), tex(10, 1, 2, 2, 0)], 4);
    let imgs = vec![vec![5, 5, 9, 200, 5, 9], vec![0, 0, 0, 0]];
    let (m, jam) = encode(&meta, &imgs).expect("encodes");

    assert_eq!(m.stem, "CAR");
    assert_eq!(m.num_textures, 2);
    assert_eq!(m.canvas_h, 4);
    assert_eq!(m.textures[0].tx.quarter_palette_size, 3);
    assert_eq!(m.textures[0].palette, vec![5, 9, 200]);
    assert_eq!(m.textures[0].png_name, "CAR_0.png");
    assert_eq!(m.textures[1].tx.quarter_palette_size, 1);
    assert_eq!(m.textures[1].palette, vec![0]);
    assert_eq!(jam.len(), 4 + 64 + 16 + 1024);

    let mut plain = jam.clone();
    decrypt_encrypt_jam(&mut plain);
    let mut p = parse_jam_decrypted("CAR".to_string(), &plain).expect("parses");
    assert_eq!(p.textures[0], m.textures[0].tx);
    assert_eq!(p.textures[1], m.textures[1].tx);
    assert_eq!(p.palette_data, vec![5, 9, 200, 5, 9, 200, 5, 9, 200, 5, 9, 200, 0, 0, 0, 0]);
    assert_eq!(extract_texture_image(&p, 0), vec![0, 0, 1, 2, 0, 1]);
    p.canvas = canvas_to_global_indices(&p);
    assert_eq!(extract_texture_image(&p, 0), imgs[0]);
    assert_eq!(extract_texture_image(&p, 1), imgs[1]);
}

#[test]
fn encode_keeps_a_larger_palette_and_pads_it() {
    let meta = meta_of(vec![tex(0, 0, 2, 1, 4)], 1);
    let imgs = vec![vec![7, 7]];
    let (m, jam) = encode(&meta, &imgs).unwrap();
    assert_eq!(m.textures[0].tx.quarter_palette_size, 4);
    assert_eq!(m.textures[0].palette, vec![7, 0, 0, 0]);
    let mut plain = jam;
    decrypt_encrypt_jam(&mut plain);
    assert_eq!(&plain[0..4], &[1, 0, 1, 0]);
    assert_eq!(plain.len(), 4 + 32 + 16 + 256);
    assert_eq!(&plain[4 + 32 + 16..4 + 32 + 16 + 3], &[0, 0, 0]);
}

#[test]
fn encode_header_and_record_bytes() {
    let meta = meta_of(vec![tex(3, 1, 2, 1, 0)], 2);
    let (_, jam) = encode(&meta, &[vec![42, 43]]).unwrap();
    let mut plain = jam;
    decrypt_encrypt_jam(&mut plain);
    assert_eq!(&plain[0..4], &[1, 0, 2, 0]);
    assert_eq!(
        &plain[4..36],
        &[3, 1, 0, 0, 2, 0, 1, 0, 0, 0, 0x00, 0x29, 0, 0, 0, 0, 2, 0, 0xeb, 0x03, 0, 0, 0, 201, 0, 0, 0, 0, 0, 0, 0, 9]
    );
    assert_eq!(&plain[36..44], &[42, 43, 42, 43, 42, 43, 42, 43]);
    let canvas = &plain[44..];
    assert_eq!(canvas.len(), 512);
    assert_eq!(&canvas[256 + 3..256 + 5], &[0, 1]);
}

#[test]
fn encode_errors() {
    let meta = meta_of(vec![tex(0, 0, 2, 2, 0), tex(4, 0, 2, 2, 0)], 2);
    assert_eq!(encode(&meta, &[vec![0; 4]]), Err(JamError::TextureCountMismatch));
    assert_eq!(
        encode(&meta, &[vec![0; 4], vec![1, 2, 3]]),
        Err(JamError::ImageSizeMismatch { texture: 1, len: 3, width: 2, height: 2 })
    );
    assert_eq!(
        encode(&meta, &[vec![0; 5], vec![1, 2, 3]]),
        Err(JamError::ImageSizeMismatch { texture: 0, len: 5, width: 2, height: 2 })
    );
}

#[test]
fn header_count_larger_than_records_leaves_empty_slots() {
    let mut meta = meta_of(vec![tex(0, 0, 1, 1, 0)], 1);
    meta.num_textures = 2;
    assert!(jamtool::can_encode(&meta, &[vec![5]]));
    let (_, jam) = encode(&meta, &[vec![5]]).unwrap();
    let mut plain = jam;
    decrypt_encrypt_jam(&mut plain);
    assert_eq!(plain.len(), 4 + 64 + 4 + 256);
    assert_eq!(&plain[0..4], &[2, 0, 1, 0]);
    assert!(plain[36..68].iter().all(|&b| b == 0));
    assert_eq!(&plain[68..72], &[5, 5, 5, 5]);
    assert_eq!(plain[72], 0);
}

#[test]
fn records_past_the_end_fail_at_a_field() {
    let mut meta = meta_of(vec![tex(0, 0, 0, 0, 3)], 0);
    meta.num_textures = 0;
    assert!(jamtool::can_encode(&meta, &[vec![]]));
    assert_eq!(encode(&meta, &[vec![]]), Err(JamError::WriteOutOfRange { offset: 16 }));
}

#[test]
fn can_encode_refuses_textures_outside_the_canvas() {
    let meta = meta_of(vec![tex(0, 1, 2, 2, 0)], 2);
    assert!(!jamtool::can_encode(&meta, &[vec![0; 4]]));
    assert!(jamtool::can_encode(&meta, &[vec![0; 3]]));
    let ok = meta_of(vec![tex(0, 0, 2, 2, 0)], 2);
    assert!(jamtool::can_encode(&ok, &[vec![0; 4]]));
}

#[test]
fn encoding_again_with_returned_metadata_changes_nothing() {
    let meta = meta_of(vec![tex(0, 0, 2, 1, 1), tex(4, 0, 1, 2, 3)], 2);
    let imgs = vec![vec![7, 9], vec![9, 9]];
    let (m, jam) = encode(&meta, &imgs).unwrap();
    let (m2, jam2) = encode(&m, &imgs).unwrap();
    assert_eq!(m2, m);
    assert_eq!(jam2, jam);
}
