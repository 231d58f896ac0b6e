use rustbus::message_builder::MarshalledMessageBody;
use rustbus::message_builder::MessageBodyParser;
use rustbus::message_builder::MessageBuilder;
use rustbus::params::Container;
use rustbus::params::Param;
use rustbus::params::SpecParam;
use rustbus::signature;
use rustbus::signature::SpecType;
use rustbus::wire::errors::MarshalError;
use rustbus::wire::errors::UnmarshalError;
use rustbus::wire::marshal::traits::Marshal;
use rustbus::wire::marshal::traits::Signature;
use rustbus::wire::marshal::traits::SignatureBuffer;
use rustbus::wire::marshal::MarshalContext;
use rustbus::wire::Dict;
use rustbus::ByteOrder;

struct MyStruct {
    x: u64,
    y: String,
}

impl Signature for &MyStruct {
    fn signature() -> signature::Type {
        signature::Type::Container(signature::Container::Struct(
            signature::StructTypes::new(vec![u64::signature(), String::signature()]).unwrap(),
        ))
    }

    fn alignment() -> usize {
        8
    }

    fn sig_str(s_buf: &mut SignatureBuffer) {
        s_buf.push_static("(ts)")
    }

    fn has_sig(sig: &str) -> bool {
        sig == "(ts)"
    }

    // what only the verifier reads is never run
    fn sig_spec() -> SpecType {
        unreachable!()
    }

    fn param(&self) -> SpecParam {
        unreachable!()
    }

    fn lemma_param_type(&self) {
        unreachable!()
    }
}

impl Marshal for &MyStruct {
    fn marshal(&self, ctx: &mut MarshalContext) -> Result<(), MarshalError> {
        // always align to 8
        ctx.align_to(8);
        self.x.marshal(ctx)?;
        self.y.marshal(ctx)?;
        Ok(())
    }
}

#[test]
fn test_marshal_trait() {
    let mut body = MarshalledMessageBody::with_byteorder(ByteOrder::LittleEndian);
    let bytes: &[&[_]] = &[&[4u64]];
    body.push_param(bytes).unwrap();

    assert_eq!(
        vec![12, 0, 0, 0, 8, 0, 0, 0, 4, 0, 0, 0, 0, 0, 0, 0],
        body.get_buf()
    );
    assert_eq!(body.get_sig(), "aat");

    let mut body = MarshalledMessageBody::with_byteorder(ByteOrder::LittleEndian);
    let mut map = Dict::new();
    map.insert("a", 4u32);

    body.push_param(&map).unwrap();
    assert_eq!(
        vec![12, 0, 0, 0, 0, 0, 0, 0, 1, 0, 0, 0, b'a', 0, 0, 0, 4, 0, 0, 0,],
        body.get_buf()
    );
    assert_eq!(body.get_sig(), "a{su}");

    let mut body = MarshalledMessageBody::with_byteorder(ByteOrder::LittleEndian);
    body.push_param((11u64, "str", true)).unwrap();
    assert_eq!(body.get_sig(), "(tsb)");
    assert_eq!(
        vec![11, 0, 0, 0, 0, 0, 0, 0, 3, 0, 0, 0, b's', b't', b'r', 0, 1, 0, 0, 0,],
        body.get_buf()
    );

    let mut body = MarshalledMessageBody::with_byteorder(ByteOrder::LittleEndian);
    body.push_param(&MyStruct {
        x: 100,
        y: "A".to_owned(),
    })
    .unwrap();
    assert_eq!(body.get_sig(), "(ts)");
    assert_eq!(
        vec![100, 0, 0, 0, 0, 0, 0, 0, 1, 0, 0, 0, b'A', 0,],
        body.get_buf()
    );

    let mut body = MarshalledMessageBody::with_byteorder(ByteOrder::LittleEndian);
    let emptymap: Dict<&str, u32> = Dict::new();
    let mut map = Dict::new();
    let mut map2 = Dict::new();
    map.insert("a", 4u32);
    map2.insert("a", &map);

    body.push_param(&map2).unwrap();
    body.push_param(&emptymap).unwrap();
    assert_eq!(body.get_sig(), "a{sa{su}}a{su}");
    assert_eq!(
        vec![
            28, 0, 0, 0, 0, 0, 0, 0, 1, 0, 0, 0, b'a', 0, 0, 0, 12, 0, 0, 0, 0, 0, 0, 0, 1, 0, 0,
            0, b'a', 0, 0, 0, 4, 0, 0, 0, 0, 0, 0, 0
        ],
        body.get_buf()
    );

    // try to unmarshal stuff
    let mut body_iter = MessageBodyParser::new(&body);

    // first try some stuff that has the wrong signature
    type WrongNestedDict = Dict<String, Dict<String, u64>>;
    assert_eq!(
        body_iter.get::<WrongNestedDict>().err().unwrap(),
        UnmarshalError::WrongSignature
    );
    type WrongStruct = (u64, i32, String);
    assert_eq!(
        body_iter.get::<WrongStruct>().err().unwrap(),
        UnmarshalError::WrongSignature
    );

    // the get the correct type and make sure the content is correct
    type NestedDict = Dict<String, Dict<String, u32>>;
    let key = "a".to_owned();
    let newmap2: NestedDict = body_iter.get().unwrap();
    assert_eq!(newmap2.len(), 1);
    assert_eq!(newmap2.get(&key).unwrap().len(), 1);
    assert_eq!(*newmap2.get(&key).unwrap().get(&key).unwrap(), 4);

    // again try some stuff that has the wrong signature
    assert_eq!(
        body_iter.get::<WrongNestedDict>().err().unwrap(),
        UnmarshalError::WrongSignature
    );
    assert_eq!(
        body_iter.get::<WrongStruct>().err().unwrap(),
        UnmarshalError::WrongSignature
    );

    // get the empty map next
    let newemptymap: Dict<&str, u32> = body_iter.get().unwrap();
    assert_eq!(newemptymap.len(), 0);

    // test get2()
    let mut body_iter = body.parser();
    assert_eq!(
        body_iter.get2::<NestedDict, u16>().unwrap_err(),
        UnmarshalError::WrongSignature
    );
    assert_eq!(
        body_iter
            .get3::<NestedDict, Dict<&str, u32>, u32>()
            .unwrap_err(),
        UnmarshalError::EndOfMessage
    );

    // test to make sure body_iter is left unchanged from last failure and the map is
    // pulled out identically from above
    let (newmap2, newemptymap): (NestedDict, Dict<&str, u32>) = body_iter.get2().unwrap();
    // repeat assertions from above
    assert_eq!(newmap2.len(), 1);
    assert_eq!(newmap2.get(&key).unwrap().len(), 1);
    assert_eq!(*newmap2.get(&key).unwrap().get(&key).unwrap(), 4);
    assert_eq!(newemptymap.len(), 0);
    assert_eq!(
        body_iter.get::<u16>().unwrap_err(),
        UnmarshalError::EndOfMessage
    );

    // test mixed get() and get_param()
    let mut body_iter = body.parser();

    // test to make sure body_iter is left unchanged from last failure and the map is
    // pulled out identically from above
    let newmap2: NestedDict = body_iter.get().unwrap();
    let newemptymap = body_iter.get_param().unwrap();
    // repeat assertions from above
    assert_eq!(newmap2.len(), 1);
    assert_eq!(newmap2.get(&key).unwrap().len(), 1);
    assert_eq!(*newmap2.get(&key).unwrap().get(&key).unwrap(), 4);

    match newemptymap {
        Param::Container(Container::Dict(dict)) => {
            assert_eq!(dict.map.len(), 0);
            assert_eq!(dict.key_sig, signature::Base::String);
            assert_eq!(
                dict.value_sig,
                signature::Type::Base(signature::Base::Uint32)
            );
        }
        _ => panic!("Expected to get a dict"),
    }
    assert_eq!(
        body_iter.get::<u16>().unwrap_err(),
        UnmarshalError::EndOfMessage
    );
}

#[test]
fn parser_get() {
    let mut sig = MessageBuilder::new()
        .signal("io.killingspark", "Signal", "/io/killingspark/Signaler")
        .build();

    sig.body.push_param3(100u32, 200i32, "ABCDEFGH").unwrap();

    let mut parser = sig.body.parser();
    assert_eq!(parser.get(), Ok(100u32));
    assert_eq!(parser.get(), Ok(200i32));
    assert_eq!(parser.get(), Ok("ABCDEFGH"));
    assert_eq!(parser.get::<String>(), Err(UnmarshalError::EndOfMessage));

    let mut parser = sig.body.parser();
    assert_eq!(parser.get2(), Ok((100u32, 200i32)));
    assert_eq!(parser.get(), Ok("ABCDEFGH"));
    assert_eq!(parser.get::<String>(), Err(UnmarshalError::EndOfMessage));

    let mut parser = sig.body.parser();
    assert_eq!(parser.get3(), Ok((100u32, 200i32, "ABCDEFGH")));
    assert_eq!(parser.get::<String>(), Err(UnmarshalError::EndOfMessage));

    let mut sig = MessageBuilder::new()
        .signal("io.killingspark", "Signal", "/io/killingspark/Signaler")
        .build();

    sig.body.push_param((100u32, 200i32, "ABCDEFGH")).unwrap();
    sig.body.push_param((100u32, 200i32, "ABCDEFGH")).unwrap();
    sig.body.push_param((100u32, 200i32, "ABCDEFGH")).unwrap();

    let mut parser = sig.body.parser();
    assert!(parser.get::<(u32, i32, &str)>().is_ok());
    assert!(parser.get2::<(u32, i32, &str), (u32, i32, &str)>().is_ok());
}
