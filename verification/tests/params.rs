use rustbus::params::validate_array;
use rustbus::params::validate_dict;
use rustbus::params::validate_object_path;
use rustbus::params::validate_signature;
use rustbus::params::Array;
use rustbus::params::Base;
use rustbus::params::Container;
use rustbus::params::Dict;
use rustbus::params::Param;
use rustbus::params::Variant;
use rustbus::signature;
use rustbus::wire::errors::MarshalError;
use rustbus::wire::marshal::container::marshal_container_param;
use rustbus::wire::marshal::container::marshal_param;
use rustbus::wire::marshal::MarshalContext;
use rustbus::wire::unmarshal::container::unmarshal_body;
use rustbus::wire::unmarshal::container::unmarshal_with_sig;
use rustbus::wire::unmarshal::UnmarshalContext;
use rustbus::wire::UnixFd;
use rustbus::ByteOrder;

fn typ(sig: &str) -> signature::Type {
    signature::Type::parse_description(sig).unwrap().remove(0)
}

fn marshal(p: &Param) -> Result<Vec<u8>, MarshalError> {
    let mut ctx = MarshalContext::new(ByteOrder::LittleEndian);
    marshal_param(p, &mut ctx)?;
    Ok(ctx.buf)
}

fn u32s(values: &[u32]) -> Param {
    Param::Container(Container::Array(Array {
        element_sig: typ("u"),
        values: values.iter().map(|v| Param::Base(Base::Uint32(*v))).collect(),
    }))
}

#[test]
fn object_paths() {
    for ok in ["/", "/a", "/a/b", "/io/killingspark/Signaler", "/_1/A_b"] {
        assert_eq!(validate_object_path(ok), Ok(()), "{}", ok);
    }
    for bad in ["", "a", "a/b", "//", "/a/", "/a//b", "/a-b", "/ä", "/a b"] {
        assert_eq!(
            validate_object_path(bad),
            Err(MarshalError::InvalidObjectPath),
            "{}",
            bad
        );
    }
}

#[test]
fn signatures() {
    assert_eq!(validate_signature("a{su}"), Ok(()));
    assert_eq!(validate_signature(""), Ok(()));
    assert_eq!(
        validate_signature("a{su"),
        Err(signature::Error::InvalidSignature)
    );
    assert_eq!(validate_signature("()"), Err(signature::Error::EmptyStruct));
}

#[test]
fn types_of_values() {
    assert!(Param::Base(Base::String("x".to_owned())).sig().same(&typ("s")));
    assert!(Param::Base(Base::Double(0)).sig().same(&typ("d")));
    assert!(u32s(&[1]).sig().same(&typ("au")));
    let s = Param::Container(Container::Struct(vec![
        Param::Base(Base::Byte(1)),
        u32s(&[]),
    ]));
    assert!(s.sig().same(&typ("(yau)")));
    let v = Param::Container(Container::Variant(Box::new(Variant {
        sig: typ("y"),
        value: Param::Base(Base::Byte(1)),
    })));
    assert!(v.sig().same(&typ("v")));
    let d = Param::Container(Container::Dict(Dict {
        key_sig: signature::Base::String,
        value_sig: typ("v"),
        map: vec![],
    }));
    assert!(d.sig().same(&typ("a{sv}")));
}

#[test]
fn array_elements_must_have_the_declared_type() {
    let values = vec![Param::Base(Base::Uint32(1)), Param::Base(Base::Int32(1))];
    assert_eq!(
        validate_array(&values, &typ("u")),
        Err(MarshalError::InvalidSignature)
    );
    assert_eq!(validate_array(&values[..1], &typ("u")), Ok(()));
    assert_eq!(validate_array(&[], &typ("u")), Ok(()));
    let bad = Param::Container(Container::Array(Array {
        element_sig: typ("u"),
        values,
    }));
    assert_eq!(marshal(&bad), Err(MarshalError::InvalidSignature));
}

#[test]
fn dict_entries_must_have_the_declared_types() {
    let entry = |k: Param, v: Param| vec![(k, v)];
    let s = |t: &str| Param::Base(Base::String(t.to_owned()));
    let u = |n: u32| Param::Base(Base::Uint32(n));
    assert_eq!(
        validate_dict(&entry(s("a"), u(1)), signature::Base::String, &typ("u")),
        Ok(())
    );
    assert_eq!(
        validate_dict(&entry(u(1), u(1)), signature::Base::String, &typ("u")),
        Err(MarshalError::InvalidSignature)
    );
    assert_eq!(
        validate_dict(&entry(s("a"), s("b")), signature::Base::String, &typ("u")),
        Err(MarshalError::InvalidSignature)
    );
    assert_eq!(
        validate_dict(&entry(u32s(&[1]), u(1)), signature::Base::String, &typ("u")),
        Err(MarshalError::DictKeyMustBeBase)
    );
    let bad = Param::Container(Container::Dict(Dict {
        key_sig: signature::Base::String,
        value_sig: typ("u"),
        map: entry(u32s(&[1]), u(1)),
    }));
    assert_eq!(marshal(&bad), Err(MarshalError::DictKeyMustBeBase));
}

#[test]
fn dynamic_values_on_the_wire() {
    assert_eq!(
        marshal(&u32s(&[1, 2])).unwrap(),
        vec![8, 0, 0, 0, 1, 0, 0, 0, 2, 0, 0, 0]
    );
    let nested = Param::Container(Container::Array(Array {
        element_sig: typ("at"),
        values: vec![Param::Container(Container::Array(Array {
            element_sig: typ("t"),
            values: vec![Param::Base(Base::Uint64(4))],
        }))],
    }));
    assert_eq!(
        marshal(&nested).unwrap(),
        vec![12, 0, 0, 0, 8, 0, 0, 0, 4, 0, 0, 0, 0, 0, 0, 0]
    );
    let dict = Param::Container(Container::Dict(Dict {
        key_sig: signature::Base::String,
        value_sig: typ("u"),
        map: vec![(
            Param::Base(Base::String("a".to_owned())),
            Param::Base(Base::Uint32(4)),
        )],
    }));
    assert_eq!(
        marshal(&dict).unwrap(),
        vec![12, 0, 0, 0, 0, 0, 0, 0, 1, 0, 0, 0, b'a', 0, 0, 0, 4, 0, 0, 0]
    );
    let st = Param::Container(Container::Struct(vec![
        Param::Base(Base::Uint64(11)),
        Param::Base(Base::String("str".to_owned())),
        Param::Base(Base::Boolean(true)),
    ]));
    assert_eq!(
        marshal(&st).unwrap(),
        vec![11, 0, 0, 0, 0, 0, 0, 0, 3, 0, 0, 0, b's', b't', b'r', 0, 1, 0, 0, 0]
    );
    let var = Param::Container(Container::Variant(Box::new(Variant {
        sig: typ("u"),
        value: Param::Base(Base::Uint32(7)),
    })));
    assert_eq!(marshal(&var).unwrap(), vec![1, b'u', 0, 0, 7, 0, 0, 0]);
}

#[test]
fn basic_values_on_the_wire() {
    assert_eq!(marshal(&Param::Base(Base::Byte(9))).unwrap(), vec![9]);
    assert_eq!(
        marshal(&Param::Base(Base::Boolean(true))).unwrap(),
        vec![1, 0, 0, 0]
    );
    assert_eq!(
        marshal(&Param::Base(Base::Boolean(false))).unwrap(),
        vec![0, 0, 0, 0]
    );
    assert_eq!(
        marshal(&Param::Base(Base::Int16(-2))).unwrap(),
        vec![0xfe, 0xff]
    );
    assert_eq!(
        marshal(&Param::Base(Base::Int32(-1))).unwrap(),
        vec![0xff; 4]
    );
    assert_eq!(
        marshal(&Param::Base(Base::Int64(-1))).unwrap(),
        vec![0xff; 8]
    );
    assert_eq!(
        marshal(&Param::Base(Base::Double(0x3ff0_0000_0000_0000))).unwrap(),
        vec![0, 0, 0, 0, 0, 0, 0xf0, 0x3f]
    );
    assert_eq!(
        marshal(&Param::Base(Base::ObjectPath("/a".to_owned()))).unwrap(),
        vec![2, 0, 0, 0, b'/', b'a', 0]
    );
    assert_eq!(
        marshal(&Param::Base(Base::Signature("ai".to_owned()))).unwrap(),
        vec![2, b'a', b'i', 0]
    );
}

#[test]
fn values_that_cannot_be_written() {
    assert_eq!(
        marshal(&Param::Base(Base::ObjectPath("a".to_owned()))),
        Err(MarshalError::InvalidObjectPath)
    );
    assert_eq!(
        marshal(&Param::Base(Base::Signature("a".to_owned()))),
        Err(MarshalError::InvalidSignature)
    );
    assert_eq!(
        marshal(&Param::Base(Base::Signature("z".to_owned()))),
        Err(MarshalError::InvalidSignatureChar)
    );
    assert_eq!(
        marshal(&Param::Base(Base::Signature("()".to_owned()))),
        Err(MarshalError::EmptyStruct)
    );
    assert_eq!(
        marshal(&Param::Base(Base::Signature("y".repeat(256)))),
        Err(MarshalError::TooLong)
    );
    assert_eq!(
        marshal(&Param::Base(Base::Signature(format!("{}y", "a".repeat(33))))),
        Err(MarshalError::ExceedsMaxDepth)
    );
    assert_eq!(
        marshal(&Param::Container(Container::Struct(vec![]))),
        Err(MarshalError::EmptyStruct)
    );
    let mismatch = Param::Container(Container::Variant(Box::new(Variant {
        sig: typ("u"),
        value: Param::Base(Base::Int32(7)),
    })));
    assert_eq!(marshal(&mismatch), Err(MarshalError::VariantSigMismatch));
}

#[test]
fn a_variant_of_a_type_that_no_signature_can_hold() {
    // 33 arrays around a byte: one too many
    let mut t = typ("y");
    let mut value = Param::Base(Base::Byte(1));
    for _ in 0..33 {
        value = Param::Container(Container::Array(Array {
            element_sig: t.duplicate(),
            values: vec![value],
        }));
        t = signature::Type::Container(signature::Container::Array(Box::new(t)));
    }
    let var = Container::Variant(Box::new(Variant { sig: t, value }));
    let mut ctx = MarshalContext::new(ByteOrder::LittleEndian);
    assert_eq!(
        marshal_container_param(&var, &mut ctx),
        Err(MarshalError::ExceedsMaxDepth)
    );
    assert!(ctx.buf.is_empty());
}

#[test]
fn file_descriptors_go_beside_the_payload() {
    let mut ctx = MarshalContext::new(ByteOrder::LittleEndian);
    marshal_param(&Param::Base(Base::UnixFd(UnixFd::new(17))), &mut ctx).unwrap();
    marshal_param(&Param::Base(Base::UnixFd(UnixFd::new(23))), &mut ctx).unwrap();
    assert_eq!(ctx.buf, vec![0, 0, 0, 0, 1, 0, 0, 0]);
    assert_eq!(ctx.fds, vec![UnixFd::new(17), UnixFd::new(23)]);
    assert_eq!(ctx.fds[1].get_raw_fd(), 23);
}

#[test]
fn what_was_written_is_read() {
    let values = vec![
        Param::Base(Base::Byte(200)),
        Param::Base(Base::Boolean(true)),
        Param::Base(Base::Int16(-300)),
        Param::Base(Base::Uint16(60000)),
        Param::Base(Base::Int32(i32::MIN)),
        Param::Base(Base::Uint32(u32::MAX)),
        Param::Base(Base::Int64(i64::MIN)),
        Param::Base(Base::Uint64(u64::MAX)),
        Param::Base(Base::Double(0x4009_21fb_5444_2d18)),
        Param::Base(Base::String("grüße".to_owned())),
        Param::Base(Base::ObjectPath("/a/b".to_owned())),
        Param::Base(Base::Signature("a{sv}".to_owned())),
        Param::Base(Base::UnixFd(UnixFd::new(5))),
        u32s(&[1, 2, 3]),
        u32s(&[]),
        Param::Container(Container::Struct(vec![
            Param::Base(Base::Byte(1)),
            Param::Base(Base::Uint64(2)),
            u32s(&[9]),
        ])),
        Param::Container(Container::Dict(Dict {
            key_sig: signature::Base::String,
            value_sig: typ("v"),
            map: vec![
                (
                    Param::Base(Base::String("one".to_owned())),
                    Param::Container(Container::Variant(Box::new(Variant {
                        sig: typ("y"),
                        value: Param::Base(Base::Byte(1)),
                    }))),
                ),
                (
                    Param::Base(Base::String("two".to_owned())),
                    Param::Container(Container::Variant(Box::new(Variant {
                        sig: typ("(su)"),
                        value: Param::Container(Container::Struct(vec![
                            Param::Base(Base::String("x".to_owned())),
                            Param::Base(Base::Uint32(2)),
                        ])),
                    }))),
                ),
            ],
        })),
    ];
    for bo in [ByteOrder::LittleEndian, ByteOrder::BigEndian] {
        let mut ctx = MarshalContext::new(bo);
        let mut types = Vec::new();
        for v in &values {
            marshal_param(v, &mut ctx).unwrap();
            types.push(v.sig());
        }
        let (used, read) = unmarshal_body(bo, &types, &ctx.buf, &ctx.fds, 0).unwrap();
        assert_eq!(used, ctx.buf.len());
        assert_eq!(read.len(), values.len());
        assert_eq!(read, values);
    }
}

#[test]
fn reading_one_value_at_an_offset() {
    let buf = [9, 0, 0, 0, 8, 0, 0, 0, 1, 0, 0, 0, 2, 0, 0, 0];
    let ctx = UnmarshalContext {
        byteorder: ByteOrder::LittleEndian,
        buf: &buf,
        offset: 1,
        fds: &[],
    };
    let (used, value) = unmarshal_with_sig(&typ("au"), &ctx).unwrap();
    assert_eq!(used, 15);
    assert_eq!(value, u32s(&[1, 2]));
}

#[test]
fn values_are_compared_and_copied() {
    let a = Param::Container(Container::Struct(vec![
        Param::Base(Base::String("x".to_owned())),
        u32s(&[1, 2]),
        Param::Container(Container::Variant(Box::new(Variant {
            sig: typ("y"),
            value: Param::Base(Base::Byte(1)),
        }))),
        Param::Container(Container::Dict(Dict {
            key_sig: signature::Base::Byte,
            value_sig: typ("b"),
            map: vec![(Param::Base(Base::Byte(1)), Param::Base(Base::Boolean(true)))],
        })),
    ]));
    let b = a.clone();
    assert_eq!(a, b);
    assert!(a.same(&b));
    assert_ne!(a, u32s(&[1, 2]));
    assert_ne!(u32s(&[1, 2]), u32s(&[1, 3]));
    assert_ne!(u32s(&[1, 2]), u32s(&[1]));
    assert_ne!(
        Param::Base(Base::String("x".to_owned())),
        Param::Base(Base::ObjectPath("x".to_owned()))
    );
    assert_ne!(Param::Base(Base::Int32(1)), Param::Base(Base::Uint32(1)));
    assert_eq!(Base::Double(7), Base::Double(7).clone());
    let t = typ("a{s(yv)}");
    assert_eq!(t.clone(), t);
    assert_ne!(t, typ("a{s(yy)}"));
}
