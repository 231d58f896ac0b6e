use rustbus::signature::Base;
use rustbus::signature::Type;
use rustbus::wire::errors::UnmarshalError;
use rustbus::wire::validate_raw::validate_marshalled;
use rustbus::wire::validate_raw::validate_marshalled_base;
use rustbus::wire::validate_raw::validate_marshalled_container;
use rustbus::wire::validate_raw::validate_run;
use rustbus::ByteOrder;

fn check(sig: &str, offset: usize, raw: &[u8]) -> Result<usize, (usize, UnmarshalError)> {
    let t = &Type::parse_description(sig).unwrap()[0];
    validate_marshalled(ByteOrder::LittleEndian, offset, raw, t)
}

#[test]
fn fixed_width_values() {
    assert_eq!(check("y", 0, &[1]), Ok(1));
    assert_eq!(check("y", 0, &[]), Err((0, UnmarshalError::NotEnoughBytes)));
    assert_eq!(check("q", 0, &[1, 2]), Ok(2));
    assert_eq!(check("n", 1, &[9, 0, 1, 2]), Ok(3));
    assert_eq!(check("n", 1, &[9, 0, 1]), Err((2, UnmarshalError::NotEnoughBytes)));
    assert_eq!(check("u", 0, &[1, 2, 3, 4]), Ok(4));
    assert_eq!(check("i", 0, &[1, 2, 3]), Err((0, UnmarshalError::NotEnoughBytes)));
    assert_eq!(check("h", 0, &[9, 9, 9, 9]), Ok(4));
    assert_eq!(check("t", 0, &[0; 8]), Ok(8));
    assert_eq!(check("x", 0, &[0; 7]), Err((0, UnmarshalError::NotEnoughBytes)));
    assert_eq!(check("d", 3, &[9, 9, 9, 0, 0, 0, 0, 0, 1, 2, 3, 4, 5, 6, 7, 8]), Ok(13));
}

#[test]
fn non_zero_padding_is_rejected() {
    assert_eq!(
        check("(yu)", 0, &[8, 0, 1, 0, 14, 0, 0, 0]),
        Err((1, UnmarshalError::PaddingContainedData))
    );
    assert_eq!(
        check("u", 1, &[0, 0, 0, 1, 14, 0, 0, 0]),
        Err((1, UnmarshalError::PaddingContainedData))
    );
    assert_eq!(check("u", 1, &[7, 0, 0, 0, 14, 0, 0, 0]), Ok(7));
}

#[test]
fn boolean_is_zero_or_one() {
    assert_eq!(check("b", 0, &[0, 0, 0, 0]), Ok(4));
    assert_eq!(check("b", 0, &[1, 0, 0, 0]), Ok(4));
    assert_eq!(
        check("b", 0, &[2, 0, 0, 0]),
        Err((0, UnmarshalError::InvalidBoolean))
    );
    assert_eq!(
        check("b", 0, &[0, 1, 0, 0]),
        Err((0, UnmarshalError::InvalidBoolean))
    );
    assert_eq!(
        check("b", 0, &[1, 0, 0]),
        Err((0, UnmarshalError::NotEnoughBytes))
    );
    assert_eq!(
        validate_marshalled_base(ByteOrder::BigEndian, 0, &[0, 0, 0, 1], Base::Boolean),
        Ok(4)
    );
    assert_eq!(
        validate_marshalled_base(ByteOrder::BigEndian, 0, &[1, 0, 0, 0], Base::Boolean),
        Err((0, UnmarshalError::InvalidBoolean))
    );
}

#[test]
fn array_that_claims_more_than_there_is() {
    assert_eq!(
        check("ay", 0, &[5, 0, 0, 0, 1, 2, 3, 4]),
        Err((4, UnmarshalError::NotEnoughBytesForCollection))
    );
    assert_eq!(check("ay", 0, &[4, 0, 0, 0, 1, 2, 3, 4]), Ok(8));
    // the claim is also held against what is left behind the padding of the first element
    assert_eq!(
        check("at", 0, &[8, 0, 0, 0, 0, 0, 0, 0, 1, 2, 3, 4]),
        Err((8, UnmarshalError::NotEnoughBytesForCollection))
    );
    assert_eq!(
        check("a{yy}", 0, &[9, 0, 0, 0, 0, 0, 0, 0, 1, 2]),
        Err((4, UnmarshalError::NotEnoughBytesForCollection))
    );
}

#[test]
fn array_of_strings_that_overclaims() {
    let mut buf = vec![10, 0, 0, 0, 10, 0, 0, 0];
    buf.resize(18, 0x61);
    buf.push(0);
    assert_eq!(check("as", 0, &buf), Err((4, UnmarshalError::NotEnoughBytes)));
}

#[test]
fn elements_see_nothing_behind_the_end_of_their_array() {
    // an array of 4 bytes that holds a string which claims 1 byte: its end falls behind the array
    let buf = [4, 0, 0, 0, 1, 0, 0, 0, b'a', 0];
    assert_eq!(check("as", 0, &buf), Err((4, UnmarshalError::NotEnoughBytes)));
    let buf = [6, 0, 0, 0, 1, 0, 0, 0, b'a', 0];
    assert_eq!(check("as", 0, &buf), Ok(10));
}

#[test]
fn array_of_numbers_must_hold_whole_numbers() {
    assert_eq!(check("au", 0, &[8, 0, 0, 0, 1, 2, 3, 4, 5, 6, 7, 8]), Ok(12));
    assert_eq!(
        check("au", 0, &[6, 0, 0, 0, 1, 2, 3, 4, 5, 6]),
        Err((4, UnmarshalError::NotEnoughBytes))
    );
    assert_eq!(check("au", 0, &[0, 0, 0, 0]), Ok(4));
}

#[test]
fn empty_array_still_has_the_padding_of_its_elements() {
    assert_eq!(
        check("a(y)", 0, &[0, 0, 0, 0]),
        Err((4, UnmarshalError::NotEnoughBytes))
    );
    assert_eq!(check("a(y)", 0, &[0, 0, 0, 0, 0, 0, 0, 0]), Ok(8));
    assert_eq!(
        check("a(y)", 0, &[0, 0, 0, 0, 100, 0, 0, 0]),
        Err((4, UnmarshalError::PaddingContainedData))
    );
}

#[test]
fn strings_paths_and_signatures() {
    assert_eq!(check("s", 0, &[2, 0, 0, 0, b'h', b'i', 0]), Ok(7));
    assert_eq!(
        check("s", 0, &[13, 0, 0, 0, b'a', b'b', b'c']),
        Err((0, UnmarshalError::NotEnoughBytes))
    );
    assert_eq!(
        check("s", 0, &[2, 0, 0, 0, 0xc3, 0x28, 0]),
        Err((0, UnmarshalError::InvalidUtf8))
    );
    assert_eq!(
        check("s", 0, &[2, 0, 0, 0, b'h', b'i', 1]),
        Err((0, UnmarshalError::InvalidUtf8))
    );
    assert_eq!(check("o", 0, &[2, 0, 0, 0, b'/', b'a', 0]), Ok(7));
    assert_eq!(
        check("o", 0, &[2, 0, 0, 0, b'a', b'/', 0]),
        Err((0, UnmarshalError::InvalidObjectPath))
    );
    assert_eq!(check("g", 0, &[2, b'a', b'y', 0]), Ok(4));
    assert_eq!(
        check("g", 0, &[1, b'a', 0]),
        Err((0, UnmarshalError::InvalidSignature))
    );
    assert_eq!(
        check("g", 0, &[1, b'a']),
        Err((0, UnmarshalError::NotEnoughBytes))
    );
}

#[test]
fn variant_holds_exactly_one_type() {
    assert_eq!(check("v", 0, &[1, b'y', 0, 7]), Ok(4));
    assert_eq!(
        check("v", 0, &[2, b'y', b'y', 0, 7, 7]),
        Err((0, UnmarshalError::WrongSignature))
    );
    assert_eq!(
        check("v", 0, &[0, 0]),
        Err((0, UnmarshalError::WrongSignature))
    );
    assert_eq!(
        check("v", 0, &[1, b'(', 0, 7]),
        Err((0, UnmarshalError::InvalidSignature))
    );
    assert_eq!(
        check("v", 0, &[1, b'u', 0, 0, 1, 2, 3, 4]),
        Ok(8)
    );
    assert_eq!(
        check("v", 0, &[1, b'u', 0, 9, 1, 2, 3, 4]),
        Err((3, UnmarshalError::PaddingContainedData))
    );
    // a variant in a variant
    assert_eq!(check("v", 0, &[1, b'v', 0, 1, b'y', 0, 3]), Ok(7));
}

#[test]
fn dict_entries_are_aligned_to_eight() {
    let buf = [
        12, 0, 0, 0, 0, 0, 0, 0, 1, 0, 0, 0, b'a', 0, 0, 0, 4, 0, 0, 0,
    ];
    assert_eq!(check("a{su}", 0, &buf), Ok(20));
    let two = [
        10, 0, 0, 0, 0, 0, 0, 0, 1, 2, 0, 0, 0, 0, 0, 0, 3, 4,
    ];
    assert_eq!(check("a{yy}", 0, &two), Ok(18));
    let dirty = [
        10, 0, 0, 0, 0, 0, 0, 0, 1, 2, 0, 0, 5, 0, 0, 0, 3, 4,
    ];
    assert_eq!(
        check("a{yy}", 0, &dirty),
        Err((10, UnmarshalError::PaddingContainedData))
    );
}

#[test]
fn containers_directly() {
    let types = Type::parse_description("(yy)").unwrap();
    match &types[0] {
        Type::Container(c) => {
            assert_eq!(
                validate_marshalled_container(ByteOrder::LittleEndian, 0, &[1, 2], c),
                Ok(2)
            );
            assert_eq!(
                validate_marshalled_container(ByteOrder::LittleEndian, 0, &[1], c),
                Err((1, UnmarshalError::NotEnoughBytes))
            );
        }
        _ => panic!("a struct is a container"),
    }
}

#[test]
fn a_run_of_values() {
    let types = Type::parse_description("yus").unwrap();
    let buf = [1, 0, 0, 0, 2, 0, 0, 0, 1, 0, 0, 0, b'x', 0];
    assert_eq!(validate_run(ByteOrder::LittleEndian, 0, &buf, &types), Ok(14));
    assert_eq!(
        validate_run(ByteOrder::LittleEndian, 0, &buf[..13], &types),
        Err((8, UnmarshalError::NotEnoughBytes))
    );
    assert_eq!(validate_run(ByteOrder::LittleEndian, 0, &buf, &vec![]), Ok(0));
}

#[test]
fn big_endian_lengths() {
    let t = &Type::parse_description("ay").unwrap()[0];
    assert_eq!(
        validate_marshalled(ByteOrder::BigEndian, 0, &[0, 0, 0, 2, 5, 6], t),
        Ok(6)
    );
    assert_eq!(
        validate_marshalled(ByteOrder::LittleEndian, 0, &[0, 0, 0, 2, 5, 6], t),
        Err((4, UnmarshalError::NotEnoughBytesForCollection))
    );
}
