#[test]
fn test_jam_encryption_idempotency() {
    let original = b"Hello GP2 JAM File!".to_vec();
    let mut encrypted = original.clone();

    // Applying the rolling XOR twice should return the original data
    jamtool::decrypt_encrypt_jam(&mut encrypted);
    assert_ne!(original, encrypted);

    jamtool::decrypt_encrypt_jam(&mut encrypted);
    assert_eq!(original, encrypted);
}

#[test]
fn keystream_of_zero_bytes() {
    let mut buf = vec![0u8; 12];
    jamtool::decrypt_encrypt_jam(&mut buf);
    assert_eq!(
        buf,
        vec![0x65, 0xf1, 0x82, 0xb0, 0xf9, 0xb6, 0x8e, 0x72, 0xdd, 0x92, 0xc9, 0x3c]
    );
}

#[test]
fn encrypts_known_text() {
    let mut buf = b"Hello GP2 JAM File!".to_vec();
    jamtool::decrypt_encrypt_jam(&mut buf);
    assert_eq!(
        buf,
        vec![45, 148, 238, 220, 150, 150, 201, 34, 239, 178, 131, 125, 28, 254, 169, 70, 249, 50, 142]
    );
}

#[test]
fn empty_buffer_stays_empty() {
    let mut buf: Vec<u8> = Vec::new();
    jamtool::decrypt_encrypt_jam(&mut buf);
    assert!(buf.is_empty());
}
