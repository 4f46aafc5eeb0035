use leybold_opc_rs::wire::{
    push_all, push_be16, push_be32, push_be64, push_zeros, read_be16, read_be32,
    read_be64, read_le16, read_le32,
};

#[test]
fn little_endian_words_are_read_low_byte_first() {
    let data = [0x34u8, 0x12, 0x78, 0x56, 0xff];
    assert_eq!(read_le16(&data, 0), Some(0x1234));
    assert_eq!(read_le32(&data, 0), Some(0x5678_1234));
    assert_eq!(read_le32(&data, 1), Some(0xff56_7812));
    assert_eq!(read_le32(&data, 2), None);
    assert_eq!(read_le16(&data, 4), None);
}

#[test]
fn big_endian_words_are_read_high_byte_first() {
    let data = [0x12u8, 0x34, 0x56, 0x78];
    assert_eq!(read_be16(&data, 0), Some(0x1234));
    assert_eq!(read_be16(&data, 2), Some(0x5678));
    assert_eq!(read_be32(&data, 0), Some(0x1234_5678));
    assert_eq!(read_be32(&data, 1), None);
}

#[test]
fn sixty_four_bits_are_read_high_word_first() {
    let data = [0x01u8, 0x02, 0x03, 0x04, 0x05, 0x06, 0x07, 0x08, 0x09];
    assert_eq!(read_be64(&data, 0), Some(0x0102_0304_0506_0708));
    assert_eq!(read_be64(&data, 1), Some(0x0203_0405_0607_0809));
    assert_eq!(read_be64(&data, 2), None);
    assert_eq!(read_be64(&[0xFF; 8], 0), Some(u64::MAX));
}

#[test]
fn readers_refuse_places_outside_the_data() {
    let data = [1u8, 2];
    assert_eq!(read_be16(&data, usize::MAX), None);
    assert_eq!(read_le16(&data, 3), None);
    assert_eq!(read_be32(&data, usize::MAX - 1), None);
    assert_eq!(read_le32(&[], 0), None);
    assert_eq!(read_be16(&data, 0), Some(0x0102));
    assert_eq!(read_be16(&data, 1), None);
}

#[test]
fn writers_append_big_endian() {
    let mut out = vec![0xAAu8];
    push_be16(&mut out, 0x1234);
    push_be32(&mut out, 0xDEAD_BEEF);
    push_be64(&mut out, 0x0102_0304_0506_0708);
    push_all(&mut out, &[9, 9]);
    push_zeros(&mut out, 3);
    assert_eq!(
        out,
        vec![0xAA, 0x12, 0x34, 0xDE, 0xAD, 0xBE, 0xEF, 1, 2, 3, 4, 5, 6, 7, 8, 9, 9, 0, 0, 0]
    );
    assert_eq!(read_be16(&out, 1), Some(0x1234));
    assert_eq!(read_be32(&out, 3), Some(0xDEAD_BEEF));
    assert_eq!(read_be64(&out, 7), Some(0x0102_0304_0506_0708));
}

#[test]
fn what_is_written_is_read_back() {
    for x in [0u16, 1, 255, 256, 0x8000, u16::MAX] {
        let mut out = Vec::new();
        push_be16(&mut out, x);
        assert_eq!(out.len(), 2);
        assert_eq!(read_be16(&out, 0), Some(x));
    }
    for x in [0u32, 1, 0x00FF_FF00, 0x8000_0000, u32::MAX] {
        let mut out = Vec::new();
        push_be32(&mut out, x);
        assert_eq!(out.len(), 4);
        assert_eq!(read_be32(&out, 0), Some(x));
    }
    for x in [0u64, 1, 0xFFFF_FFFF, 0x1_0000_0000, u64::MAX] {
        let mut out = Vec::new();
        push_be64(&mut out, x);
        assert_eq!(out.len(), 8);
        assert_eq!(read_be64(&out, 0), Some(x));
    }
}
