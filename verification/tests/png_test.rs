use jamtool::png::{build_palette, encode_indexed_png_to_bytes, export_texture_png};
use jamtool::{meta_from_parsed, parse_jam_decrypted, JamError, JamParsed, JamTexture};
use std::io::Cursor;

const SIGNATURE: [u8; 8] = [0x89, b'P', b'N', b'G', 0x0d, 0x0a, 0x1a, 0x0a];

fn decode(bytes: &[u8]) -> (Vec<u8>, u32, u32, Vec<u8>, Option<Vec<u8>>) {
    let mut reader = png::Decoder::new(Cursor::new(bytes)).read_info().unwrap();
    let palette = reader.info().palette.as_ref().map(|p| p.to_vec()).unwrap_or_default();
    let trns = reader.info().trns.as_ref().map(|t| t.to_vec());
    assert_eq!(reader.info().color_type, png::ColorType::Indexed);
    let mut buf = vec![0u8; reader.output_buffer_size().unwrap()];
    let out = reader.next_frame(&mut buf).unwrap();
    buf.truncate(out.buffer_size());
    (buf, out.width, out.height, palette, trns)
}

fn grey_palette() -> Vec<u8> {
    (0..768).map(|i| (i / 3) as u8).collect()
}

#[test]
fn build_palette_maps_haze_entries() {
    let palette_data = [9u8, 9, 1, 2, 3, 4];
    let global = grey_palette();
    let rgb = build_palette(&palette_data, 2, 1, 2, &global);
    assert_eq!(&rgb[0..6], &[3, 3, 3, 4, 4, 4]);
    assert!(rgb[6..].iter().all(|&b| b == 0));
    let rgb0 = build_palette(&palette_data, 2, 0, 2, &global);
    assert_eq!(&rgb0[0..6], &[1, 1, 1, 2, 2, 2]);
    let none = build_palette(&palette_data, 0, 0, 0, &global);
    assert!(none.iter().all(|&b| b == 0));
}

#[test]
fn encodes_decodable_indexed_png() {
    let mut pal = [0u8; 768];
    pal[3] = 255;
    pal[7] = 128;
    let indices = [0u8, 1, 2, 1, 0, 2];
    let bytes = encode_indexed_png_to_bytes(&indices, 3, 2, &pal, false).unwrap();
    assert_eq!(&bytes[0..8], &SIGNATURE);
    let (pixels, w, h, palette, trns) = decode(&bytes);
    assert_eq!((w, h), (3, 2));
    assert_eq!(pixels, indices.to_vec());
    assert_eq!(palette, pal.to_vec());
    assert_eq!(trns, None);
}

#[test]
fn transparent_png_has_trns_table() {
    let pal = [7u8; 768];
    let bytes = encode_indexed_png_to_bytes(&[1, 0], 2, 1, &pal, true).unwrap();
    let (pixels, _, _, _, trns) = decode(&bytes);
    assert_eq!(pixels, vec![1, 0]);
    let mut expected = vec![0xffu8; 256];
    expected[0] = 0;
    assert_eq!(trns, Some(expected));
}

#[test]
fn refused_png_is_an_error() {
    let pal = [0u8; 768];
    assert_eq!(encode_indexed_png_to_bytes(&[], 0, 0, &pal, false), Err(JamError::PngEncoding));
    assert_eq!(encode_indexed_png_to_bytes(&[1, 2, 3], 2, 2, &pal, false), Err(JamError::PngEncoding));
}

#[test]
fn file_names_are_stem_underscore_index() {
    let tx = JamTexture {
        left: 0,
        top: 0,
        unk02: 0,
        width: 0,
        height: 0,
        unk08: 0,
        unk0a: 0,
        image_ptr: 0,
        unk0e: 0,
        quarter_palette_size: 0,
        texture_id: 0,
        transparent: 0,
        unk16: 0,
        unk17: 0,
        unk18: [0; 8],
    };
    let p = JamParsed {
        stem: "A".to_string(),
        num_textures: 12,
        canvas_h: 1,
        textures: vec![tx; 12],
        palette_data: Vec::new(),
        canvas: vec![0u8; 256],
    };
    let meta = meta_from_parsed("FERRARI", &p);
    assert_eq!(meta.textures[0].png_name, "FERRARI_0.png");
    assert_eq!(meta.textures[11].png_name, "FERRARI_11.png");
    let meta = meta_from_parsed("", &p);
    assert_eq!(meta.textures[7].png_name, "_7.png");
}

fn put16(v: &mut Vec<u8>, x: u16) {
    v.push((x & 0xff) as u8);
    v.push((x >> 8) as u8);
}

#[test]
fn exports_texture_with_haze_palette() {
    let mut v = Vec::new();
    put16(&mut v, 1);
    put16(&mut v, 1);
    let mut rec = vec![0u8; 32];
    rec[0] = 2;
    rec[4] = 2;
    rec[6] = 1;
    rec[16] = 2;
    rec[20] = 8;
    v.extend_from_slice(&rec);
    v.extend_from_slice(&[10, 20, 11, 21, 12, 22, 13, 23]);
    let mut canvas = vec![0u8; 256];
    canvas[2] = 1;
    canvas[3] = 0;
    v.extend_from_slice(&canvas);
    let p = parse_jam_decrypted("TEX".to_string(), &v).unwrap();
    let global = grey_palette();
    let (name, bytes) = export_texture_png(&p, 0, 2, &global).unwrap();
    assert_eq!(name, "TEX_0.png");
    let (pixels, w, h, palette, trns) = decode(&bytes);
    assert_eq!((w, h), (2, 1));
    assert_eq!(pixels, vec![1, 0]);
    assert_eq!(&palette[0..6], &[12, 12, 12, 22, 22, 22]);
    assert!(trns.is_some());
}

#[test]
fn decodes_indexed_png() {
    let pal = [3u8; 768];
    let indices = [4u8, 5, 6, 7, 8, 9];
    let bytes = encode_indexed_png_to_bytes(&indices, 2, 3, &pal, false).unwrap();
    let (pixels, w, h) = jamtool::png::decode_indexed_png_from_bytes(&bytes).unwrap();
    assert_eq!((w, h), (2, 3));
    assert_eq!(pixels, indices.to_vec());
}

#[test]
fn refuses_undecodable_and_rgb_png() {
    assert_eq!(
        jamtool::png::decode_indexed_png_from_bytes(b"not a png"),
        Err(JamError::PngDecoding)
    );
    let mut rgb = Vec::new();
    {
        let mut enc = png::Encoder::new(&mut rgb, 1, 1);
        enc.set_color(png::ColorType::Rgb);
        enc.set_depth(png::BitDepth::Eight);
        let mut w = enc.write_header().unwrap();
        w.write_image_data(&[1, 2, 3]).unwrap();
    }
    assert_eq!(
        jamtool::png::decode_indexed_png_from_bytes(&rgb),
        Err(JamError::PngNotIndexed)
    );
}

#[test]
fn file_name_is_built_from_stem_and_index() {
    assert_eq!(jamtool::names::png_file_name("FERRARI", 0), "FERRARI_0.png");
    assert_eq!(jamtool::names::png_file_name("A", 1234), "A_1234.png");
    assert_eq!(jamtool::names::png_file_name("", 7), "_7.png");
}

#[test]
fn encoded_png_has_ihdr_plte_and_trns_chunks() {
    let pal = grey_palette();
    let mut palette = [0u8; 768];
    palette.copy_from_slice(&pal);
    let bytes = encode_indexed_png_to_bytes(&[1, 2, 3, 4, 5, 6], 3, 2, &palette, true).unwrap();
    assert_eq!(&bytes[0..8], &SIGNATURE);
    assert_eq!(&bytes[8..16], &[0, 0, 0, 13, b'I', b'H', b'D', b'R']);
    assert_eq!(&bytes[16..24], &[0, 0, 0, 3, 0, 0, 0, 2]);
    assert_eq!(&bytes[24..29], &[8, 3, 0, 0, 0]);
    assert_eq!(&bytes[33..41], &[0, 0, 3, 0, b'P', b'L', b'T', b'E']);
    assert_eq!(&bytes[41..809], &palette[..]);
    assert_eq!(&bytes[813..821], &[0, 0, 1, 0, b't', b'R', b'N', b'S']);
    assert_eq!(bytes[821], 0);
    assert!(bytes[822..1077].iter().all(|&b| b == 255));
    assert_eq!(&bytes[1085..1089], b"IDAT");
    let opaque = encode_indexed_png_to_bytes(&[1, 2, 3, 4, 5, 6], 3, 2, &palette, false).unwrap();
    assert_eq!(&opaque[817..821], b"IDAT");
}
