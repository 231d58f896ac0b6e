use rustbus::wire::errors::MarshalError;
use rustbus::wire::errors::UnmarshalError;
use rustbus::wire::util;
use rustbus::ByteOrder;

#[test]
fn integers_in_little_endian() {
    let mut buf = Vec::new();
    util::write_u16(0x0102, ByteOrder::LittleEndian, &mut buf);
    util::write_u32(0x0304_0506, ByteOrder::LittleEndian, &mut buf);
    util::write_u64(0x0708_090a_0b0c_0d0e, ByteOrder::LittleEndian, &mut buf);
    assert_eq!(
        buf,
        vec![2, 1, 6, 5, 4, 3, 0x0e, 0x0d, 0x0c, 0x0b, 0x0a, 9, 8, 7]
    );
    assert_eq!(
        util::parse_u16(&buf, ByteOrder::LittleEndian),
        Ok((2, 0x0102))
    );
    assert_eq!(
        util::parse_u32(&buf[2..], ByteOrder::LittleEndian),
        Ok((4, 0x0304_0506))
    );
    assert_eq!(
        util::parse_u64(&buf[6..], ByteOrder::LittleEndian),
        Ok((8, 0x0708_090a_0b0c_0d0e))
    );
}

#[test]
fn integers_in_big_endian() {
    let mut buf = Vec::new();
    util::write_u16(0x0102, ByteOrder::BigEndian, &mut buf);
    util::write_u32(0x0304_0506, ByteOrder::BigEndian, &mut buf);
    util::write_u64(0x0708_090a_0b0c_0d0e, ByteOrder::BigEndian, &mut buf);
    assert_eq!(
        buf,
        vec![1, 2, 3, 4, 5, 6, 7, 8, 9, 0x0a, 0x0b, 0x0c, 0x0d, 0x0e]
    );
    assert_eq!(util::parse_u16(&buf, ByteOrder::BigEndian), Ok((2, 0x0102)));
    assert_eq!(
        util::parse_u32(&buf[2..], ByteOrder::BigEndian),
        Ok((4, 0x0304_0506))
    );
    assert_eq!(
        util::parse_u64(&buf[6..], ByteOrder::BigEndian),
        Ok((8, 0x0708_090a_0b0c_0d0e))
    );
}

#[test]
fn extreme_integers_round_trip() {
    for bo in [ByteOrder::LittleEndian, ByteOrder::BigEndian] {
        for v in [0u64, 1, 255, 256, u32::MAX as u64, u64::MAX, 1 << 63] {
            let mut buf = Vec::new();
            util::write_u64(v, bo, &mut buf);
            assert_eq!(util::parse_u64(&buf, bo), Ok((8, v)));
        }
        for v in [0u32, 1, 255, 256, 65535, 65536, u32::MAX] {
            let mut buf = Vec::new();
            util::write_u32(v, bo, &mut buf);
            assert_eq!(util::parse_u32(&buf, bo), Ok((4, v)));
        }
        for v in [0u16, 1, 255, 256, u16::MAX] {
            let mut buf = Vec::new();
            util::write_u16(v, bo, &mut buf);
            assert_eq!(util::parse_u16(&buf, bo), Ok((2, v)));
        }
    }
}

#[test]
fn too_few_bytes_for_an_integer() {
    assert_eq!(
        util::parse_u16(&[1], ByteOrder::LittleEndian),
        Err(UnmarshalError::NotEnoughBytes)
    );
    assert_eq!(
        util::parse_u32(&[1, 2, 3], ByteOrder::LittleEndian),
        Err(UnmarshalError::NotEnoughBytes)
    );
    assert_eq!(
        util::parse_u64(&[1, 2, 3, 4, 5, 6, 7], ByteOrder::BigEndian),
        Err(UnmarshalError::NotEnoughBytes)
    );
}

#[test]
fn signed_integers_are_twos_complement() {
    assert_eq!(util::i16_to_bits(-1), 0xffff);
    assert_eq!(util::i16_to_bits(i16::MIN), 0x8000);
    assert_eq!(util::i16_to_bits(5), 5);
    assert_eq!(util::i32_to_bits(-2), 0xffff_fffe);
    assert_eq!(util::i32_to_bits(i32::MIN), 0x8000_0000);
    assert_eq!(util::i64_to_bits(-1), u64::MAX);
    assert_eq!(util::i64_to_bits(i64::MIN), 1 << 63);
    assert_eq!(util::i16_from_bits(0xffff), -1);
    assert_eq!(util::i16_from_bits(0x7fff), i16::MAX);
    assert_eq!(util::i32_from_bits(0x8000_0000), i32::MIN);
    assert_eq!(util::i64_from_bits(u64::MAX), -1);
    for v in [i64::MIN, -1, 0, 1, i64::MAX] {
        assert_eq!(util::i64_from_bits(util::i64_to_bits(v)), v);
    }
}

#[test]
fn insert_overwrites_four_bytes() {
    let mut buf = vec![9, 9, 9, 9, 9, 9, 9];
    util::insert_u32(ByteOrder::LittleEndian, 0x0102_0304, &mut buf, 2);
    assert_eq!(buf, vec![9, 9, 4, 3, 2, 1, 9]);
    util::insert_u32(ByteOrder::BigEndian, 0x0102_0304, &mut buf, 0);
    assert_eq!(buf, vec![1, 2, 3, 4, 2, 1, 9]);
}

#[test]
fn padding_reaches_the_next_multiple() {
    for (len, align, padded) in [
        (0, 8, 0),
        (1, 8, 8),
        (7, 8, 8),
        (8, 8, 8),
        (9, 8, 16),
        (1, 4, 4),
        (5, 4, 8),
        (3, 2, 4),
        (3, 1, 3),
    ] {
        let mut buf = vec![7u8; len];
        util::pad_to_align(align, &mut buf);
        assert_eq!(buf.len(), padded);
        assert!(buf[len..].iter().all(|b| *b == 0));
        assert!(buf[..len].iter().all(|b| *b == 7));
    }
}

#[test]
fn align_offset_checks_the_padding() {
    let buf = [1, 0, 0, 0, 5, 0, 0, 0];
    assert_eq!(util::align_offset(4, &buf, 1), Ok(3));
    assert_eq!(util::align_offset(4, &buf, 4), Ok(0));
    assert_eq!(util::align_offset(8, &buf, 5), Ok(3));
    assert_eq!(util::align_offset(1, &buf, 3), Ok(0));
    let dirty = [1, 0, 2, 0];
    assert_eq!(
        util::align_offset(4, &dirty, 1),
        Err(UnmarshalError::PaddingContainedData)
    );
    assert_eq!(
        util::align_offset(8, &dirty, 3),
        Err(UnmarshalError::NotEnoughBytes)
    );
}

#[test]
fn strings_on_the_wire() {
    let mut buf = Vec::new();
    util::write_string("str", ByteOrder::LittleEndian, &mut buf).unwrap();
    assert_eq!(buf, vec![3, 0, 0, 0, b's', b't', b'r', 0]);
    assert_eq!(
        util::unmarshal_str(ByteOrder::LittleEndian, &buf),
        Ok((8, "str"))
    );
    let mut buf = Vec::new();
    util::write_string("ä", ByteOrder::BigEndian, &mut buf).unwrap();
    assert_eq!(buf, vec![0, 0, 0, 2, 0xc3, 0xa4, 0]);
    assert_eq!(
        util::unmarshal_string(ByteOrder::BigEndian, &buf),
        Ok((7, "ä".to_owned()))
    );
    let mut buf = Vec::new();
    util::write_string("", ByteOrder::LittleEndian, &mut buf).unwrap();
    assert_eq!(buf, vec![0, 0, 0, 0, 0]);
    assert_eq!(util::unmarshal_str(ByteOrder::LittleEndian, &buf), Ok((5, "")));
}

#[test]
fn broken_strings_are_rejected() {
    let le = ByteOrder::LittleEndian;
    assert_eq!(
        util::unmarshal_str(le, &[3, 0, 0]),
        Err(UnmarshalError::NotEnoughBytes)
    );
    assert_eq!(
        util::unmarshal_str(le, &[3, 0, 0, 0, b'a', b'b', b'c']),
        Err(UnmarshalError::NotEnoughBytes)
    );
    assert_eq!(
        util::unmarshal_str(le, &[2, 0, 0, 0, 0xc3, 0x28, 0]),
        Err(UnmarshalError::InvalidUtf8)
    );
    assert_eq!(
        util::unmarshal_str(le, &[1, 0, 0, 0, b'a', b'b']),
        Err(UnmarshalError::InvalidUtf8)
    );
    // what follows the string is none of its business
    assert_eq!(
        util::unmarshal_str(le, &[1, 0, 0, 0, b'a', 0, 77, 78]),
        Ok((6, "a"))
    );
}

#[test]
fn signatures_on_the_wire() {
    let mut buf = Vec::new();
    util::write_signature("a{su}", &mut buf).unwrap();
    assert_eq!(buf, vec![5, b'a', b'{', b's', b'u', b'}', 0]);
    assert_eq!(util::unmarshal_signature(&buf), Ok((7, "a{su}")));
    assert_eq!(
        util::unmarshal_signature(&[]),
        Err(UnmarshalError::NotEnoughBytes)
    );
    assert_eq!(
        util::unmarshal_signature(&[2, b'y', b'y']),
        Err(UnmarshalError::NotEnoughBytes)
    );
    assert_eq!(
        util::unmarshal_signature(&[1, b'y', 1]),
        Err(UnmarshalError::InvalidUtf8)
    );
    assert_eq!(
        util::unmarshal_signature(&[1, 0xff, 0]),
        Err(UnmarshalError::InvalidUtf8)
    );
}

#[test]
fn over_long_signature_is_not_written() {
    let mut buf = vec![1, 2, 3];
    let long = "y".repeat(256);
    assert_eq!(
        util::write_signature(&long, &mut buf),
        Err(MarshalError::TooLong)
    );
    assert_eq!(buf, vec![1, 2, 3]);
    let longest = "y".repeat(255);
    util::write_signature(&longest, &mut buf).unwrap();
    assert_eq!(buf.len(), 3 + 257);
    assert_eq!(buf[3], 255);
}

#[test]
fn native_order_is_the_order_of_the_machine() {
    let wanted = if u16::from_ne_bytes([1, 0]) == 1 {
        ByteOrder::LittleEndian
    } else {
        ByteOrder::BigEndian
    };
    assert_eq!(ByteOrder::native(), wanted);
}

#[test]
fn order_is_told_from_the_bytes_of_one() {
    assert_eq!(ByteOrder::writing_one_as([1, 0]), ByteOrder::LittleEndian);
    assert_eq!(ByteOrder::writing_one_as([0, 1]), ByteOrder::BigEndian);
    assert_eq!(ByteOrder::writing_one_as([1, 1]), ByteOrder::BigEndian);
    assert_eq!(ByteOrder::writing_one_as([0, 0]), ByteOrder::BigEndian);
    assert_eq!(ByteOrder::writing_one_as(1u16.to_ne_bytes()), ByteOrder::native());
}
