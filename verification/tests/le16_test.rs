use jamtool::bytes::{read_le16, write_le16};
use jamtool::JamError;

#[test]
fn reads_little_endian() {
    let buf = [0x34u8, 0x12, 0xff];
    assert_eq!(read_le16(&buf, 0), Ok(0x1234));
    assert_eq!(read_le16(&buf, 1), Ok(0xff12));
    assert_eq!(read_le16(&buf, 2), Err(JamError::ReadOutOfRange { offset: 2 }));
}

#[test]
fn write_then_read_gives_value() {
    let mut buf = [0u8; 5];
    assert_eq!(write_le16(&mut buf, 1, 0xabcd), Ok(()));
    assert_eq!(buf, [0, 0xcd, 0xab, 0, 0]);
    assert_eq!(read_le16(&buf, 1), Ok(0xabcd));
    assert_eq!(write_le16(&mut buf, 4, 7), Err(JamError::WriteOutOfRange { offset: 4 }));
    assert_eq!(buf, [0, 0xcd, 0xab, 0, 0]);
}
