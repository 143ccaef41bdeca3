use jamtool::{meta_file_fits, meta_file_from_parsed, parse_jam_decrypted, read_meta_file, write_meta_file, JamError};

fn put16(v: &mut Vec<u8>, x: u16) {
    v.push((x & 0xff) as u8);
    v.push((x >> 8) as u8);
}

fn archive() -> Vec<u8> {
    let mut v = Vec::new();
    put16(&mut v, 1);
    put16(&mut v, 1);
    let mut rec = vec![0u8; 32];
    rec[0] = 3;
    rec[4] = 2;
    rec[6] = 1;
    rec[10] = 0x00;
    rec[11] = 0x29;
    rec[16] = 2;
    rec[18] = 0xe8;
    rec[19] = 0x03;
    rec[20] = 8;
    rec[23] = 201;
    rec[31] = 9;
    v.extend_from_slice(&rec);
    v.extend_from_slice(&[10, 20, 11, 21, 12, 22, 13, 23]);
    v.extend_from_slice(&[0u8; 256]);
    v
}

const TEXT: &str = "JAMMETA 1\n\
stem TRK\n\
num_textures 1\n\
canvas_h 1\n\
texture 0 left 3 top 0 width 2 height 1 unk02 0 unk08 0 unk0a 10496 image_ptr 0 unk0e 0 qps 2 texture_id 1000 transparent 8 unk16 0 unk17 201 png TRK_0.png\n\
unk18 0 0 0 0 0 0 0 9\n\
pal1 10 20\n\
pal2 11 21\n\
pal3 12 22\n\
pal4 13 23\n";

#[test]
fn writes_the_documented_layout() {
    let p = parse_jam_decrypted("TRK".to_string(), &archive()).unwrap();
    assert!(meta_file_fits(&p));
    let f = meta_file_from_parsed(b"TRK", &p);
    assert_eq!(String::from_utf8(write_meta_file(&f)).unwrap(), TEXT);
}

#[test]
fn reading_back_gives_the_file() {
    let p = parse_jam_decrypted("TRK".to_string(), &archive()).unwrap();
    let f = meta_file_from_parsed(b"TRK", &p);
    let g = read_meta_file(&write_meta_file(&f)).unwrap();
    assert_eq!(g, f);
    assert_eq!(g.textures[0].tx, p.textures[0]);
    assert_eq!(g.textures[0].pals[3], vec![13, 23]);
}

#[test]
fn refuses_malformed_files() {
    assert_eq!(read_meta_file(b""), Err(JamError::MetaSyntax));
    let no_final_newline = &TEXT.as_bytes()[..TEXT.len() - 1];
    assert_eq!(read_meta_file(no_final_newline), Err(JamError::MetaSyntax));
    let bad_key = TEXT.replace("left", "lft");
    assert_eq!(read_meta_file(bad_key.as_bytes()), Err(JamError::MetaSyntax));
    let too_large = TEXT.replace("width 2", "width 70000");
    assert_eq!(read_meta_file(too_large.as_bytes()), Err(JamError::MetaSyntax));
    let byte_too_large = TEXT.replace("pal2 11 21", "pal2 11 256");
    assert_eq!(read_meta_file(byte_too_large.as_bytes()), Err(JamError::MetaSyntax));
    let header_only = "JAMMETA 1\nstem A\nnum_textures 0\ncanvas_h 0\n";
    let f = read_meta_file(header_only.as_bytes()).unwrap();
    assert_eq!(f.textures.len(), 0);
    assert_eq!(f.stem, b"A".to_vec());
}
