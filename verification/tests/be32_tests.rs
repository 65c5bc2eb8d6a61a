use pngme::be32::{read_be, to_be};

#[test]
fn to_be_puts_the_high_byte_first() {
    assert_eq!(to_be(0), [0, 0, 0, 0]);
    assert_eq!(to_be(11), [0, 0, 0, 11]);
    assert_eq!(to_be(0x0102_0304), [1, 2, 3, 4]);
    assert_eq!(to_be(2882656334), [171, 209, 216, 78]);
    assert_eq!(to_be(u32::MAX), [255, 255, 255, 255]);
    assert_eq!(to_be(0x8000_0000), [128, 0, 0, 0]);
}

#[test]
fn to_be_agrees_with_std() {
    for x in [0u32, 1, 255, 256, 65535, 65536, 0x00ff_ffff, 0x0100_0000, 0xdead_beef, u32::MAX] {
        assert_eq!(to_be(x), x.to_be_bytes());
    }
}

#[test]
fn read_be_reads_at_the_offset() {
    let bytes = [9u8, 0, 0, 0, 42, 171, 209, 216, 78, 7];
    assert_eq!(read_be(&bytes, 1), 42);
    assert_eq!(read_be(&bytes, 5), 2882656334);
    assert_eq!(read_be(&bytes, 0), 0x0900_0000);
    assert_eq!(read_be(&bytes, 6), 0xd1d8_4e07);
    assert_eq!(read_be(&[255, 255, 255, 255], 0), u32::MAX);
}

#[test]
fn read_be_inverts_to_be() {
    for x in [0u32, 1, 255, 256, 65535, 65536, 0x00ff_ffff, 0x0100_0000, 0xdead_beef, u32::MAX] {
        assert_eq!(read_be(&to_be(x), 0), x);
    }
}
