use rustbus::wire::errors::MarshalError;
use rustbus::wire::errors::UnmarshalError;
use rustbus::wire::marshal::traits::DictKey;
use rustbus::wire::marshal::traits::Marshal;
use rustbus::wire::marshal::traits::Signature;
use rustbus::wire::marshal::traits::SignatureBuffer;
use rustbus::wire::marshal::MarshalContext;
use rustbus::wire::unmarshal::traits::Unmarshal;
use rustbus::wire::unmarshal::UnmarshalContext;
use rustbus::wire::Dict;
use rustbus::wire::ObjectPath;
use rustbus::wire::SignatureWrapper;
use rustbus::wire::UnixFd;
use rustbus::wire::Variant;
use rustbus::ByteOrder;

fn sig_of<T: Signature>() -> String {
    let mut buf = SignatureBuffer::new();
    T::sig_str(&mut buf);
    buf.as_str().to_owned()
}

fn bytes_of<T: Marshal>(v: T, bo: ByteOrder) -> Vec<u8> {
    let mut ctx = MarshalContext::new(bo);
    v.marshal(&mut ctx).unwrap();
    ctx.buf
}

fn read<'a, T: Unmarshal<'a, 'a>>(buf: &'a [u8], fds: &'a [UnixFd]) -> Result<(usize, T), UnmarshalError> {
    let ctx = UnmarshalContext {
        byteorder: ByteOrder::LittleEndian,
        buf,
        offset: 0,
        fds,
    };
    T::unmarshal(&ctx)
}

#[test]
fn signatures_of_types() {
    assert_eq!(sig_of::<u8>(), "y");
    assert_eq!(sig_of::<bool>(), "b");
    assert_eq!(sig_of::<i16>(), "n");
    assert_eq!(sig_of::<u16>(), "q");
    assert_eq!(sig_of::<i32>(), "i");
    assert_eq!(sig_of::<u32>(), "u");
    assert_eq!(sig_of::<i64>(), "x");
    assert_eq!(sig_of::<u64>(), "t");
    assert_eq!(sig_of::<String>(), "s");
    assert_eq!(sig_of::<&str>(), "s");
    assert_eq!(sig_of::<ObjectPath>(), "o");
    assert_eq!(sig_of::<SignatureWrapper>(), "g");
    assert_eq!(sig_of::<UnixFd>(), "h");
    assert_eq!(sig_of::<(u8,)>(), "(y)");
    assert_eq!(sig_of::<(u64, String, bool)>(), "(tsb)");
    assert_eq!(sig_of::<(u8, u16, u32, u64, i64)>(), "(yqutx)");
    assert_eq!(sig_of::<Vec<Vec<u64>>>(), "aat");
    assert_eq!(sig_of::<&[&[u64]]>(), "aat");
    assert_eq!(sig_of::<Dict<String, Dict<String, u32>>>(), "a{sa{su}}");
    assert_eq!(sig_of::<&Dict<&str, (u8, i64)>>(), "a{s(yx)}");
}

#[test]
fn signature_as_a_type_agrees_with_its_text() {
    fn check<T: Signature>() {
        let mut text = String::new();
        T::signature().to_str(&mut text);
        assert_eq!(text, sig_of::<T>());
        assert_eq!(T::alignment(), T::signature().get_alignment());
    }
    check::<u8>();
    check::<bool>();
    check::<i64>();
    check::<String>();
    check::<ObjectPath>();
    check::<SignatureWrapper>();
    check::<UnixFd>();
    check::<(u8, (u16, u32))>();
    check::<Vec<(u8, String)>>();
    check::<Dict<u32, Vec<String>>>();
}

#[test]
fn has_sig_looks_at_the_head() {
    assert!(u64::has_sig("t"));
    assert!(u64::has_sig("tss"));
    assert!(!u64::has_sig("x"));
    assert!(!u64::has_sig(""));
    assert!(<(u64, i32, String)>::has_sig("(tis)"));
    assert!(!<(u64, i32, String)>::has_sig("(tiu)"));
    assert!(!<(u64, i32, String)>::has_sig("(ti"));
    assert!(<Dict<String, u32>>::has_sig("a{su}y"));
    assert!(!<Dict<String, u32>>::has_sig("a{st}"));
    assert!(<Vec<u8>>::has_sig("ay"));
    assert!(!<Vec<u8>>::has_sig("a"));
}

#[test]
fn typed_values_on_the_wire() {
    let le = ByteOrder::LittleEndian;
    let be = ByteOrder::BigEndian;
    assert_eq!(bytes_of(7u8, le), vec![7]);
    assert_eq!(bytes_of(true, be), vec![0, 0, 0, 1]);
    assert_eq!(bytes_of(-2i16, be), vec![0xff, 0xfe]);
    assert_eq!(bytes_of(0x0102u16, be), vec![1, 2]);
    assert_eq!(bytes_of(-2i32, le), vec![0xfe, 0xff, 0xff, 0xff]);
    assert_eq!(bytes_of(1u32, be), vec![0, 0, 0, 1]);
    assert_eq!(bytes_of(-1i64, le), vec![0xff; 8]);
    assert_eq!(bytes_of(1u64, be), vec![0, 0, 0, 0, 0, 0, 0, 1]);
    assert_eq!(bytes_of("ab", be), vec![0, 0, 0, 2, b'a', b'b', 0]);
    assert_eq!(bytes_of("ab".to_owned(), le), vec![2, 0, 0, 0, b'a', b'b', 0]);
    assert_eq!(
        bytes_of(ObjectPath::new("/a".to_owned()).unwrap(), le),
        vec![2, 0, 0, 0, b'/', b'a', 0]
    );
    assert_eq!(
        bytes_of(SignatureWrapper::new("(y)".to_owned()).unwrap(), le),
        vec![3, b'(', b'y', b')', 0]
    );
    assert_eq!(
        bytes_of((1u8, 2u16, 3u32, 4u64), le),
        vec![1, 0, 2, 0, 3, 0, 0, 0, 4, 0, 0, 0, 0, 0, 0, 0]
    );
    assert_eq!(
        bytes_of(vec![1u16, 2, 3], be),
        vec![0, 0, 0, 6, 0, 1, 0, 2, 0, 3]
    );
    assert_eq!(
        bytes_of(vec![(1u8,), (2u8,)], le),
        vec![9, 0, 0, 0, 0, 0, 0, 0, 1, 0, 0, 0, 0, 0, 0, 0, 2]
    );
}

#[test]
fn values_are_aligned_to_what_is_there() {
    let mut ctx = MarshalContext::new(ByteOrder::LittleEndian);
    1u8.marshal(&mut ctx).unwrap();
    2u16.marshal(&mut ctx).unwrap();
    3u8.marshal(&mut ctx).unwrap();
    4u32.marshal(&mut ctx).unwrap();
    5u8.marshal(&mut ctx).unwrap();
    6u64.marshal(&mut ctx).unwrap();
    assert_eq!(
        ctx.buf,
        vec![1, 0, 2, 0, 3, 0, 0, 0, 4, 0, 0, 0, 5, 0, 0, 0, 6, 0, 0, 0, 0, 0, 0, 0]
    );
    ctx.align_to(4);
    assert_eq!(ctx.buf.len(), 24);
    7u8.marshal(&mut ctx).unwrap();
    ctx.align_to(8);
    assert_eq!(ctx.buf.len(), 32);
}

#[test]
fn wrappers_check_what_they_wrap() {
    assert_eq!(
        ObjectPath::new("a".to_owned()).unwrap_err(),
        MarshalError::InvalidObjectPath
    );
    assert_eq!(ObjectPath::new("/a".to_owned()).unwrap().as_str(), "/a");
    assert_eq!(
        SignatureWrapper::new("(".to_owned()).unwrap_err(),
        MarshalError::InvalidSignature
    );
    assert_eq!(
        SignatureWrapper::new("()".to_owned()).unwrap_err(),
        MarshalError::EmptyStruct
    );
    assert_eq!(
        SignatureWrapper::new("y".repeat(256)).unwrap_err(),
        MarshalError::TooLong
    );
    assert_eq!(
        SignatureWrapper::new(format!("{}y", "a".repeat(33))).unwrap_err(),
        MarshalError::ExceedsMaxDepth
    );
    assert_eq!(SignatureWrapper::new("ay".to_owned()).unwrap().as_str(), "ay");
}

#[test]
fn a_value_as_a_variant() {
    let mut ctx = MarshalContext::new(ByteOrder::LittleEndian);
    (1u8, 2u32).marshal_as_variant(&mut ctx).unwrap();
    assert_eq!(
        ctx.buf,
        vec![4, b'(', b'y', b'u', b')', 0, 0, 0, 1, 0, 0, 0, 2, 0, 0, 0]
    );
    let mut buf = vec![9];
    let mut fds = Vec::new();
    rustbus::message_builder::marshal_as_variant(
        UnixFd::new(3),
        ByteOrder::BigEndian,
        &mut buf,
        &mut fds,
    )
    .unwrap();
    assert_eq!(buf, vec![9, 1, b'h', 0, 0, 0, 0, 0]);
    assert_eq!(fds, vec![UnixFd::new(3)]);
}

#[test]
fn typed_values_are_read_back() {
    fn round<T>(v: T)
    where
        T: Marshal + for<'a> Unmarshal<'a, 'a> + PartialEq + std::fmt::Debug,
    {
        for bo in [ByteOrder::LittleEndian, ByteOrder::BigEndian] {
            let mut ctx = MarshalContext::new(bo);
            // not at offset 0: the padding depends on where the value stands
            0u8.marshal(&mut ctx).unwrap();
            v.marshal(&mut ctx).unwrap();
            let at = UnmarshalContext {
                byteorder: bo,
                buf: &ctx.buf,
                offset: 1,
                fds: &ctx.fds,
            };
            let (used, back) = T::unmarshal(&at).unwrap();
            assert_eq!(used, ctx.buf.len() - 1);
            assert_eq!(back, v);
        }
    }
    round(0u8);
    round(255u8);
    round(true);
    round(false);
    round(i16::MIN);
    round(u16::MAX);
    round(i32::MIN);
    round(-1i32);
    round(u32::MAX);
    round(i64::MIN);
    round(i64::MAX);
    round(u64::MAX);
    round("".to_owned());
    round("héllo wörld".to_owned());
    round(UnixFd::new(42));
    round((1u8,));
    round((1u8, "two".to_owned()));
    round((1u8, 2u16, 3u32));
    round((1u8, 2u16, 3u32, 4u64));
    round((1u8, 2u16, 3u32, 4u64, -5i64));
    round(Vec::<u32>::new());
    round(vec![1u64, 2, 3]);
    round(vec![vec!["a".to_owned()], vec![], vec!["b".to_owned(), "c".to_owned()]]);
    round(vec![(1u8, vec![2u16]), (3u8, vec![])]);
    round(ObjectPath::new("/a/b".to_owned()).unwrap());
    round(SignatureWrapper::new("a{sv}(yy)".to_owned()).unwrap());
    let mut d = Dict::new();
    d.insert(1u16, vec!["one".to_owned()]);
    d.insert(2u16, vec![]);
    round(d);
    round(Dict::<String, u8>::new());
}

#[test]
fn dicts_are_read_back_in_order() {
    let mut inner = Dict::new();
    inner.insert(1u8, "one".to_owned());
    inner.insert(2u8, "two".to_owned());
    let mut outer = Dict::new();
    outer.insert("x".to_owned(), inner);
    outer.insert("y".to_owned(), Dict::new());
    let mut ctx = MarshalContext::new(ByteOrder::LittleEndian);
    outer.marshal(&mut ctx).unwrap();
    let (used, back): (usize, Dict<String, Dict<u8, String>>) = read(&ctx.buf, &[]).unwrap();
    assert_eq!(used, ctx.buf.len());
    assert_eq!(back.len(), 2);
    assert!(!back.is_empty());
    assert_eq!(back.entries[0].0, "x");
    assert_eq!(back.entries[0].1.entries, vec![(1, "one".to_owned()), (2, "two".to_owned())]);
    assert_eq!(back.get(&"x".to_owned()).unwrap().get(&2).unwrap(), "two");
    assert!(back.get(&"x".to_owned()).unwrap().get(&3).is_none());
    assert!(back.get(&"y".to_owned()).unwrap().is_empty());
    assert!(back.get(&"z".to_owned()).is_none());
}

#[test]
fn a_key_is_held_once() {
    let mut d = Dict::new();
    d.insert("k", 1u8);
    d.insert("l", 2u8);
    d.insert("k", 3u8);
    assert_eq!(d.len(), 2);
    assert_eq!(d.entries, vec![("k", 3), ("l", 2)]);
    assert_eq!(*d.get(&"k").unwrap(), 3);
}

#[test]
fn the_first_of_equal_keys_on_the_wire_is_found() {
    let buf = [10, 0, 0, 0, 0, 0, 0, 0, 7, 1, 0, 0, 0, 0, 0, 0, 7, 2];
    let (_, d): (usize, Dict<u8, u8>) = read(&buf, &[]).unwrap();
    assert_eq!(d.entries, vec![(7, 1), (7, 2)]);
    assert_eq!(*d.get(&7).unwrap(), 1);
}

#[test]
fn keys_are_compared_by_value() {
    assert!(5u8.same_key(&5));
    assert!(!5u16.same_key(&6));
    assert!((-5i64).same_key(&-5));
    assert!(true.same_key(&true));
    assert!(!true.same_key(&false));
    assert!("ab".same_key("ab"));
    assert!(!"ab".same_key("abc"));
    assert!(!"ab".same_key("ac"));
    assert!("ä".to_owned().same_key(&"ä".to_owned()));
    assert!(UnixFd::new(1).same_key(&UnixFd::new(1)));
    assert!(!UnixFd::new(1).same_key(&UnixFd::new(2)));
    assert!(ObjectPath::new("/a".to_owned())
        .unwrap()
        .same_key(&ObjectPath::new("/a".to_owned()).unwrap()));
    assert!(!SignatureWrapper::new("y".to_owned())
        .unwrap()
        .same_key(&SignatureWrapper::new("u".to_owned()).unwrap()));
}

#[test]
fn borrowed_text_points_into_the_payload() {
    let buf = [3, 0, 0, 0, b'a', b'b', b'c', 0];
    let (used, s): (usize, &str) = read(&buf, &[]).unwrap();
    assert_eq!(used, 8);
    assert_eq!(s, "abc");
    assert_eq!(s.as_ptr(), buf[4..].as_ptr());
}

#[test]
fn paths_and_signatures_are_checked_when_read() {
    let ok = [2, 0, 0, 0, b'/', b'a', 0];
    let (_, p): (usize, ObjectPath) = read(&ok, &[]).unwrap();
    assert_eq!(p.as_str(), "/a");
    let bad = [2, 0, 0, 0, b'a', b'/', 0];
    assert_eq!(
        read::<ObjectPath>(&bad, &[]).unwrap_err(),
        UnmarshalError::InvalidObjectPath
    );
    let (n, s): (usize, SignatureWrapper) = read(&[2, b'a', b'y', 0], &[]).unwrap();
    assert_eq!((n, s.as_str()), (4, "ay"));
    assert_eq!(
        read::<SignatureWrapper>(&[1, b'a', 0], &[]).unwrap_err(),
        UnmarshalError::InvalidSignature
    );
}

#[test]
fn file_descriptors_are_looked_up() {
    let fds = [UnixFd::new(10), UnixFd::new(11)];
    assert_eq!(read::<UnixFd>(&[1, 0, 0, 0], &fds), Ok((4, UnixFd::new(11))));
    assert_eq!(
        read::<UnixFd>(&[2, 0, 0, 0], &fds),
        Err(UnmarshalError::BadFdIndex)
    );
    assert_eq!(
        read::<UnixFd>(&[0, 0, 0], &fds),
        Err(UnmarshalError::NotEnoughBytes)
    );
}

#[test]
fn typed_reading_finds_the_faults() {
    assert_eq!(read::<u32>(&[1, 2, 3], &[]), Err(UnmarshalError::NotEnoughBytes));
    assert_eq!(read::<bool>(&[2, 0, 0, 0], &[]), Err(UnmarshalError::InvalidBoolean));
    assert_eq!(
        read::<String>(&[1, 0, 0, 0, 0xff, 0], &[]),
        Err(UnmarshalError::InvalidUtf8)
    );
    assert_eq!(
        read::<Vec<u8>>(&[3, 0, 0, 0, 1, 2], &[]),
        Err(UnmarshalError::NotEnoughBytesForCollection)
    );
    assert_eq!(
        read::<Vec<u32>>(&[2, 0, 0, 0, 1, 2], &[]),
        Err(UnmarshalError::NotEnoughBytes)
    );
    assert_eq!(
        read::<(u8, u32)>(&[1, 0, 9, 0, 2, 0, 0, 0], &[]),
        Err(UnmarshalError::PaddingContainedData)
    );
    assert_eq!(
        read::<Dict<u8, u8>>(&[2, 0, 0, 0, 0, 0, 0, 0, 1], &[]).unwrap_err(),
        UnmarshalError::NotEnoughBytesForCollection
    );
}

#[test]
fn an_array_holds_at_most_two_to_the_26_bytes() {
    let most = vec![0u8; 1 << 26];
    let mut ctx = MarshalContext::new(ByteOrder::LittleEndian);
    most.marshal(&mut ctx).unwrap();
    assert_eq!(ctx.buf.len(), 4 + (1 << 26));
    assert_eq!(&ctx.buf[..4], &[0, 0, 0, 4]);

    let mut too_many = most;
    too_many.push(0);
    let mut ctx = MarshalContext::new(ByteOrder::LittleEndian);
    assert_eq!(too_many.marshal(&mut ctx), Err(MarshalError::TooLong));

    let mut body = rustbus::message_builder::MarshalledMessageBody::with_byteorder(
        ByteOrder::LittleEndian,
    );
    body.push_param(1u8).unwrap();
    assert_eq!(body.push_param(&too_many), Err(MarshalError::TooLong));
    assert_eq!(body.get_buf(), &[1]);
    assert_eq!(body.get_sig(), "y");
}

#[test]
fn variants_inside_other_values() {
    assert_eq!(sig_of::<Dict<String, Variant<u32>>>(), "a{sv}");
    let mut d = Dict::new();
    d.insert("k", Variant(7u32));
    assert_eq!(
        bytes_of(&d, ByteOrder::LittleEndian),
        vec![16, 0, 0, 0, 0, 0, 0, 0, 1, 0, 0, 0, b'k', 0, 1, b'u', 0, 0, 0, 0, 7, 0, 0, 0]
    );
    // a variant in a variant
    assert_eq!(
        bytes_of(Variant(Variant(1u8)), ByteOrder::LittleEndian),
        vec![1, b'v', 0, 1, b'y', 0, 1]
    );
    let mut body = rustbus::message_builder::MarshalledMessageBody::with_byteorder(
        ByteOrder::LittleEndian,
    );
    body.push_param(&d).unwrap();
    assert_eq!(body.validate(), Ok(()));
    match body.parser().get_param().unwrap() {
        rustbus::params::Param::Container(rustbus::params::Container::Dict(read)) => {
            assert_eq!(read.map.len(), 1);
        }
        other => panic!("{:?}", other),
    }
}
