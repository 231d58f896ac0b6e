use rustbus::message_builder::MarshalledMessageBody;
use rustbus::params::Array;
use rustbus::params::Base;
use rustbus::params::Container;
use rustbus::params::Param;
use rustbus::signature;
use rustbus::wire::errors::MarshalError;
use rustbus::wire::errors::UnmarshalError;
use rustbus::wire::marshal::traits::SignatureBuffer;
use rustbus::wire::Dict;
use rustbus::wire::ObjectPath;
use rustbus::wire::UnixFd;
use rustbus::ByteOrder;

fn body() -> MarshalledMessageBody {
    MarshalledMessageBody::with_byteorder(ByteOrder::LittleEndian)
}

fn lengths(b: &MarshalledMessageBody) -> (usize, usize, usize) {
    (b.get_buf().len(), b.get_fds().len(), b.get_sig().len())
}

fn bad_path() -> Param {
    Param::Base(Base::ObjectPath("not a path".to_owned()))
}

#[test]
fn a_new_body_is_empty_and_valid() {
    let b = MarshalledMessageBody::new();
    assert_eq!(lengths(&b), (0, 0, 0));
    assert_eq!(b.byteorder(), ByteOrder::native());
    assert_eq!(b.validate(), Ok(()));
    let b = MarshalledMessageBody::with_byteorder(ByteOrder::BigEndian);
    assert_eq!(b.byteorder(), ByteOrder::BigEndian);
}

#[test]
fn a_body_stays_valid_push_by_push() {
    let mut b = body();
    assert_eq!(b.validate(), Ok(()));
    b.push_param(1u8).unwrap();
    assert_eq!(b.validate(), Ok(()));
    b.push_param("text").unwrap();
    assert_eq!(b.validate(), Ok(()));
    b.push_param(vec![(1u8, 2u64), (3, 4)]).unwrap();
    assert_eq!(b.validate(), Ok(()));
    let mut d = Dict::new();
    d.insert("k".to_owned(), vec![true, false]);
    b.push_param(&d).unwrap();
    assert_eq!(b.validate(), Ok(()));
    b.push_variant((UnixFd::new(3), ObjectPath::new("/x".to_owned()).unwrap()))
        .unwrap();
    assert_eq!(b.validate(), Ok(()));
    b.push_param3(1u16, -1i64, Vec::<String>::new()).unwrap();
    assert_eq!(b.validate(), Ok(()));
    b.push_old_param(&Param::Base(Base::Double(1))).unwrap();
    assert_eq!(b.validate(), Ok(()));
    assert_eq!(b.get_sig(), "ysa(yt)a{sab}vqxasd");
    assert_eq!(b.get_fds(), vec![UnixFd::new(3)]);
}

#[test]
fn a_failed_push_changes_nothing() {
    let mut b = body();
    b.push_param2(7u8, UnixFd::new(1)).unwrap();
    let before = lengths(&b);
    let bytes = b.get_buf().to_vec();

    assert_eq!(b.push_old_param(&bad_path()), Err(MarshalError::InvalidObjectPath));
    assert_eq!(lengths(&b), before);

    // the fault comes behind values that were written already
    let partly = Param::Container(Container::Struct(vec![
        Param::Base(Base::UnixFd(UnixFd::new(9))),
        Param::Base(Base::Uint64(1)),
        bad_path(),
    ]));
    assert_eq!(b.push_old_param(&partly), Err(MarshalError::InvalidObjectPath));
    assert_eq!(lengths(&b), before);
    assert_eq!(b.get_buf(), &bytes[..]);

    assert_eq!(
        b.push_old_params(&[Param::Base(Base::Byte(1)), partly]),
        Err(MarshalError::InvalidObjectPath)
    );
    assert_eq!(lengths(&b), before);
    assert_eq!(b.get_sig(), "yh");
    assert_eq!(b.validate(), Ok(()));
}

#[test]
fn a_signature_that_grows_too_long_fails_the_push() {
    let mut b = body();
    for _ in 0..255 {
        b.push_param(1u8).unwrap();
    }
    let before = lengths(&b);
    assert_eq!(before, (255, 0, 255));
    assert_eq!(b.push_param(1u8), Err(MarshalError::TooLong));
    assert_eq!(b.push_variant(1u8), Err(MarshalError::TooLong));
    assert_eq!(b.push_params(&[1u8]), Err(MarshalError::TooLong));
    assert_eq!(b.push_param2(1u8, 2u8), Err(MarshalError::TooLong));
    assert_eq!(lengths(&b), before);
    assert_eq!(b.validate(), Ok(()));

    let mut b = body();
    for _ in 0..254 {
        b.push_param(1u8).unwrap();
    }
    let before = lengths(&b);
    assert_eq!(b.push_param2(1u8, 2u8), Err(MarshalError::TooLong));
    assert_eq!(b.push_param5(1u8, 2u8, 3u8, 4u8, 5u8), Err(MarshalError::TooLong));
    assert_eq!(b.push_params(&[1u8, 2]), Err(MarshalError::TooLong));
    assert_eq!(b.push_param((1u8,)), Err(MarshalError::TooLong));
    assert_eq!(lengths(&b), before);
    b.push_param(1u8).unwrap();
    assert_eq!(b.get_sig().len(), 255);
}

#[test]
fn a_type_that_no_signature_can_hold_fails_the_push() {
    let mut t = signature::Type::Base(signature::Base::Byte);
    let mut value = Param::Base(Base::Byte(1));
    for _ in 0..33 {
        value = Param::Container(Container::Array(Array {
            element_sig: t.duplicate(),
            values: vec![value],
        }));
        t = signature::Type::Container(signature::Container::Array(Box::new(t)));
    }
    let mut b = body();
    b.push_param(1u32).unwrap();
    assert_eq!(b.push_old_param(&value), Err(MarshalError::ExceedsMaxDepth));
    assert_eq!(lengths(&b), (4, 0, 1));
    assert_eq!(
        b.push_old_param(&Param::Container(Container::Struct(vec![]))),
        Err(MarshalError::EmptyStruct)
    );
    assert_eq!(lengths(&b), (4, 0, 1));
}

#[test]
fn pushes_of_several_values() {
    let mut b = body();
    b.push_param2(1u8, 2u16).unwrap();
    b.push_param3(3u8, 4u32, "five").unwrap();
    b.push_param4(6u8, 7u8, 8u8, 9u8).unwrap();
    b.push_param5(10u8, 11u8, 12u8, 13u8, 14u64).unwrap();
    b.push_params(&[15u16, 16]).unwrap();
    b.push_old_params(&[Param::Base(Base::Byte(17)), Param::Base(Base::Boolean(true))])
        .unwrap();
    assert_eq!(b.get_sig(), "yqyusyyyyyyyytqqyb");
    assert_eq!(b.validate(), Ok(()));
    let mut p = b.parser();
    assert_eq!(p.get2::<u8, u16>(), Ok((1, 2)));
    assert_eq!(p.get3::<u8, u32, &str>(), Ok((3, 4, "five")));
    assert_eq!(p.get4::<u8, u8, u8, u8>(), Ok((6, 7, 8, 9)));
    assert_eq!(p.get5::<u8, u8, u8, u8, u64>(), Ok((10, 11, 12, 13, 14)));
    assert_eq!(p.get2::<u16, u16>(), Ok((15, 16)));
    assert_eq!(p.get2::<u8, bool>(), Ok((17, true)));
    assert_eq!(p.sigs_left(), 0);
}

#[test]
fn a_variant_keeps_its_signature_in_the_payload() {
    let mut b = body();
    b.push_variant(7u32).unwrap();
    assert_eq!(b.get_sig(), "v");
    assert_eq!(b.get_buf(), &[1, b'u', 0, 0, 7, 0, 0, 0]);
    assert_eq!(b.validate(), Ok(()));
    let mut p = b.parser();
    match p.get_param().unwrap() {
        Param::Container(Container::Variant(v)) => {
            assert!(v.sig.same(&signature::Type::Base(signature::Base::Uint32)));
            match v.value {
                Param::Base(Base::Uint32(7)) => {}
                other => panic!("{:?}", other),
            }
        }
        other => panic!("{:?}", other),
    }
}

#[test]
fn reset_empties_the_body() {
    let mut b = body();
    b.push_param2("x", UnixFd::new(1)).unwrap();
    b.reserve(100);
    assert_eq!(lengths(&b), (12, 1, 2));
    b.reset();
    assert_eq!(lengths(&b), (0, 0, 0));
    assert_eq!(b.byteorder(), ByteOrder::LittleEndian);
    b.push_param(1u8).unwrap();
    assert_eq!(b.get_sig(), "y");
}

#[test]
fn a_body_from_parts_is_checked_on_demand() {
    let ok = MarshalledMessageBody::from_parts(
        vec![1, 0, 0, 0, 2, 0, 0, 0],
        vec![],
        "yu".to_owned(),
        ByteOrder::LittleEndian,
    );
    assert_eq!(ok.validate(), Ok(()));
    assert_eq!(ok.get_sig(), "yu");

    let left_over = MarshalledMessageBody::from_parts(
        vec![1, 0, 0, 0, 2, 0, 0, 0, 0],
        vec![],
        "yu".to_owned(),
        ByteOrder::LittleEndian,
    );
    assert_eq!(left_over.validate(), Err(UnmarshalError::NotAllBytesUsed));

    let only_bytes = MarshalledMessageBody::from_parts(
        vec![1],
        vec![],
        String::new(),
        ByteOrder::LittleEndian,
    );
    assert_eq!(only_bytes.validate(), Err(UnmarshalError::NotAllBytesUsed));

    let bad_sig = MarshalledMessageBody::from_parts(
        vec![1],
        vec![],
        "(y".to_owned(),
        ByteOrder::LittleEndian,
    );
    assert_eq!(bad_sig.validate(), Err(UnmarshalError::InvalidSignature));

    let short = MarshalledMessageBody::from_parts(
        vec![1, 0, 0, 0, 2],
        vec![],
        "yu".to_owned(),
        ByteOrder::LittleEndian,
    );
    assert_eq!(short.validate(), Err(UnmarshalError::NotEnoughBytes));

    let dirty = MarshalledMessageBody::from_parts(
        vec![1, 0, 5, 0, 2, 0, 0, 0],
        vec![],
        "yu".to_owned(),
        ByteOrder::LittleEndian,
    );
    assert_eq!(dirty.validate(), Err(UnmarshalError::PaddingContainedData));

    let fds = MarshalledMessageBody::from_parts(
        vec![0, 0, 0, 0],
        vec![UnixFd::new(4)],
        "h".to_owned(),
        ByteOrder::BigEndian,
    );
    assert_eq!(fds.get_fds(), vec![UnixFd::new(4)]);
    assert_eq!(fds.parser().get::<UnixFd>(), Ok(UnixFd::new(4)));
}

#[test]
fn wrong_type_leaves_the_parser_where_it_is() {
    let mut b = body();
    b.push_param2(100u32, "text").unwrap();
    let mut p = b.parser();
    assert_eq!(p.get::<u64>(), Err(UnmarshalError::WrongSignature));
    assert_eq!(p.get::<&str>(), Err(UnmarshalError::WrongSignature));
    assert_eq!(p.get_next_sig(), Some("u"));
    assert_eq!(p.sigs_left(), 2);
    assert_eq!(p.get::<u32>(), Ok(100));
    assert_eq!(p.get::<u32>(), Err(UnmarshalError::WrongSignature));
    assert_eq!(p.get_next_sig(), Some("s"));
    assert_eq!(p.get::<String>(), Ok("text".to_owned()));
    assert_eq!(p.get_next_sig(), None);
    assert_eq!(p.get::<u8>(), Err(UnmarshalError::EndOfMessage));
    assert!(matches!(p.get_param(), Err(UnmarshalError::EndOfMessage)));
}

#[test]
fn a_failed_get_of_several_leaves_the_parser_where_it_is() {
    let mut b = body();
    b.push_param3(1u8, 2u16, 3u32).unwrap();
    let mut p = b.parser();
    assert_eq!(p.get::<u8>(), Ok(1));
    assert_eq!(
        p.get2::<u16, u64>(),
        Err(UnmarshalError::WrongSignature)
    );
    assert_eq!(p.get_next_sig(), Some("q"));
    assert_eq!(p.sigs_left(), 2);
    assert_eq!(
        p.get3::<u16, u32, u8>(),
        Err(UnmarshalError::EndOfMessage)
    );
    assert_eq!(
        p.get4::<u16, u32, u8, u8>(),
        Err(UnmarshalError::EndOfMessage)
    );
    assert_eq!(
        p.get5::<u16, u32, u8, u8, u8>(),
        Err(UnmarshalError::EndOfMessage)
    );
    assert_eq!(p.sigs_left(), 2);
    assert_eq!(p.get2::<u16, u32>(), Ok((2, 3)));
}

#[test]
fn a_value_that_cannot_be_read_leaves_the_parser_where_it_is() {
    // the signature promises a boolean and a byte, the payload holds a 2 where the boolean is
    let b = MarshalledMessageBody::from_parts(
        vec![9, 0, 0, 0, 2, 0, 0, 0, 7],
        vec![],
        "uby".to_owned(),
        ByteOrder::LittleEndian,
    );
    let mut p = b.parser();
    assert_eq!(
        p.get3::<u32, bool, u8>(),
        Err(UnmarshalError::InvalidBoolean)
    );
    assert_eq!(p.sigs_left(), 3);
    assert_eq!(p.get::<u32>(), Ok(9));
    assert_eq!(p.get::<bool>(), Err(UnmarshalError::InvalidBoolean));
    assert!(matches!(p.get_param(), Err(UnmarshalError::InvalidBoolean)));
    assert_eq!(p.get_next_sig(), Some("b"));
    assert_eq!(p.sigs_left(), 2);
}

#[test]
fn one_fd_for_every_h_of_a_flat_value() {
    let mut b = body();
    b.push_param((UnixFd::new(1), 2u8, (UnixFd::new(3), UnixFd::new(4))))
        .unwrap();
    assert_eq!(b.get_sig(), "(hy(hh))");
    assert_eq!(b.get_sig().matches('h').count(), b.get_fds().len());
    b.push_param(UnixFd::new(5)).unwrap();
    b.push_param(6u8).unwrap();
    assert_eq!(b.get_sig().matches('h').count(), b.get_fds().len());
    assert_eq!(
        b.get_fds(),
        vec![UnixFd::new(1), UnixFd::new(3), UnixFd::new(4), UnixFd::new(5)]
    );
    // the payload holds the places of the descriptors in the list
    assert_eq!(&b.get_buf()[..4], &[0, 0, 0, 0]);
    let mut p = b.parser();
    assert_eq!(
        p.get::<(UnixFd, u8, (UnixFd, UnixFd))>(),
        Ok((UnixFd::new(1), 2, (UnixFd::new(3), UnixFd::new(4))))
    );
    assert_eq!(p.get::<UnixFd>(), Ok(UnixFd::new(5)));
}

#[test]
fn an_array_brings_a_fd_for_every_element() {
    let mut b = body();
    b.push_param(vec![UnixFd::new(1), UnixFd::new(2)]).unwrap();
    assert_eq!(b.get_sig(), "ah");
    assert_eq!(b.get_fds().len(), 2);
}

#[test]
fn signature_buffer() {
    let mut s = SignatureBuffer::new();
    assert!(s.is_empty());
    s.push_static("a{su}");
    s.push_str("(y");
    s.push_owned("y)".to_owned());
    s.push_type(&signature::Type::Base(signature::Base::Uint64));
    assert_eq!(s.as_str(), "a{su}(yy)t");
    assert_eq!(s.len(), 10);
    assert_eq!(s.truncate(11), Err(MarshalError::InvalidSignature));
    assert_eq!(s.truncate(7), Err(MarshalError::InvalidSignature));
    assert_eq!(s.truncate(2), Err(MarshalError::InvalidSignature));
    assert_eq!(s.as_str(), "a{su}(yy)t");
    assert_eq!(s.truncate(10), Ok(()));
    assert_eq!(s.truncate(9), Ok(()));
    assert_eq!(s.as_str(), "a{su}(yy)");
    assert_eq!(s.truncate(5), Ok(()));
    assert_eq!(s.as_str(), "a{su}");
    assert_eq!(s.truncate(0), Ok(()));
    assert!(s.is_empty());
    let mut s = SignatureBuffer::from_string("yyy".to_owned());
    s.clear();
    assert_eq!(s.len(), 0);
}
