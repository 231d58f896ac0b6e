use rustbus::signature::Base;
use rustbus::signature::Container;
use rustbus::signature::Error;
use rustbus::signature::SignatureIter;
use rustbus::signature::StructTypes;
use rustbus::signature::Type;

fn text_of(t: &Type) -> String {
    let mut s = String::new();
    t.to_str(&mut s);
    s
}

#[test]
fn parses_every_basic_type() {
    let types = Type::parse_description("ybnqiuxtdsogh").unwrap();
    let wanted = [
        Base::Byte,
        Base::Boolean,
        Base::Int16,
        Base::Uint16,
        Base::Int32,
        Base::Uint32,
        Base::Int64,
        Base::Uint64,
        Base::Double,
        Base::String,
        Base::ObjectPath,
        Base::Signature,
        Base::UnixFd,
    ];
    assert_eq!(types.len(), wanted.len());
    for (t, b) in types.iter().zip(wanted.iter()) {
        assert!(t.same(&Type::Base(*b)));
    }
}

#[test]
fn parses_containers() {
    let types = Type::parse_description("a{su}(tsb)vaat").unwrap();
    assert_eq!(types.len(), 4);
    assert!(types[0].same(&Type::Container(Container::Dict(
        Base::String,
        Box::new(Type::Base(Base::Uint32))
    ))));
    assert!(types[1].same(&Type::Container(Container::Struct(
        StructTypes::new(vec![
            Type::Base(Base::Uint64),
            Type::Base(Base::String),
            Type::Base(Base::Boolean)
        ])
        .unwrap()
    ))));
    assert!(types[2].same(&Type::Container(Container::Variant)));
    assert!(types[3].same(&Type::Container(Container::Array(Box::new(
        Type::Container(Container::Array(Box::new(Type::Base(Base::Uint64))))
    )))));
}

#[test]
fn empty_text_holds_no_type() {
    assert_eq!(Type::parse_description("").unwrap().len(), 0);
}

#[test]
fn text_and_types_round_trip() {
    for sig in [
        "y",
        "a{su}",
        "(tsb)",
        "aat",
        "a{sa{su}}a{su}",
        "(a(yubt)a{s(yx)})",
        "v",
        "a(s)hg",
        "((((y))))",
    ] {
        let types = Type::parse_description(sig).unwrap();
        let mut text = String::new();
        for t in &types {
            t.to_str(&mut text);
        }
        assert_eq!(text, sig);
        let again = Type::parse_description(&text).unwrap();
        assert_eq!(again.len(), types.len());
        for (a, b) in again.iter().zip(types.iter()) {
            assert!(a.same(b));
        }
    }
}

#[test]
fn over_long_signature_is_rejected() {
    let ok = "y".repeat(255);
    assert_eq!(Type::parse_description(&ok).unwrap().len(), 255);
    let too_long = "y".repeat(256);
    assert_eq!(
        Type::parse_description(&too_long).unwrap_err(),
        Error::TooLong
    );
}

#[test]
fn length_is_judged_before_the_alphabet() {
    let too_long = "?".repeat(256);
    assert_eq!(
        Type::parse_description(&too_long).unwrap_err(),
        Error::TooLong
    );
}

#[test]
fn dict_entry_outside_an_array_is_rejected() {
    assert_eq!(
        Type::parse_description("{su}").unwrap_err(),
        Error::InvalidSignature
    );
    assert_eq!(
        Type::parse_description("(y{su})").unwrap_err(),
        Error::InvalidSignature
    );
}

#[test]
fn dict_key_must_be_basic() {
    assert_eq!(
        Type::parse_description("a{(y)u}").unwrap_err(),
        Error::InvalidSignature
    );
    assert_eq!(
        Type::parse_description("a{vu}").unwrap_err(),
        Error::InvalidSignature
    );
    assert_eq!(
        Type::parse_description("a{su").unwrap_err(),
        Error::InvalidSignature
    );
    assert_eq!(
        Type::parse_description("a{suu}").unwrap_err(),
        Error::InvalidSignature
    );
}

#[test]
fn empty_struct_is_rejected() {
    assert_eq!(
        Type::parse_description("()").unwrap_err(),
        Error::EmptyStruct
    );
    assert_eq!(
        Type::parse_description("y()").unwrap_err(),
        Error::EmptyStruct
    );
    assert_eq!(
        StructTypes::new(vec![]).unwrap_err(),
        Error::EmptyStruct
    );
}

#[test]
fn malformed_signatures_are_rejected() {
    for sig in ["a", "(", "(y", ")", "y)", "}", "z", "aa", "a{", "é", "y y"] {
        assert_eq!(
            Type::parse_description(sig).unwrap_err(),
            Error::InvalidSignature,
            "{}",
            sig
        );
    }
}

#[test]
fn nesting_is_limited_to_32() {
    let deepest = format!("{}y", "a".repeat(32));
    let types = Type::parse_description(&deepest).unwrap();
    assert_eq!(types[0].depth(), 32);
    let too_deep = format!("{}y", "a".repeat(33));
    assert_eq!(
        Type::parse_description(&too_deep).unwrap_err(),
        Error::ExceedsMaxDepth
    );
    let structs = format!("{}y{}", "(".repeat(32), ")".repeat(32));
    assert_eq!(Type::parse_description(&structs).unwrap()[0].depth(), 32);
    let too_many = format!("{}y{}", "(".repeat(33), ")".repeat(33));
    assert_eq!(
        Type::parse_description(&too_many).unwrap_err(),
        Error::ExceedsMaxDepth
    );
}

#[test]
fn alignments_are_those_of_the_bus() {
    let table = [
        ("y", 1),
        ("g", 1),
        ("v", 1),
        ("n", 2),
        ("q", 2),
        ("i", 4),
        ("u", 4),
        ("b", 4),
        ("h", 4),
        ("ay", 4),
        ("a{su}", 4),
        ("s", 4),
        ("o", 4),
        ("x", 8),
        ("t", 8),
        ("d", 8),
        ("(y)", 8),
    ];
    for (sig, align) in table {
        let t = &Type::parse_description(sig).unwrap()[0];
        assert_eq!(t.get_alignment(), align, "{}", sig);
    }
}

#[test]
fn only_plain_numbers_are_always_valid() {
    for sig in ["y", "n", "q", "i", "u", "x", "t", "d", "h"] {
        assert!(Type::parse_description(sig).unwrap()[0].bytes_always_valid());
    }
    for sig in ["b", "s", "o", "g", "v", "ay", "(y)", "a{yy}"] {
        assert!(!Type::parse_description(sig).unwrap()[0].bytes_always_valid());
    }
}

#[test]
fn depth_and_length_of_types() {
    let t = &Type::parse_description("(a(yubt)a{s(yx)})").unwrap()[0];
    assert_eq!(t.depth(), 3);
    assert_eq!(t.text_len(), 17);
    assert_eq!(text_of(t), "(a(yubt)a{s(yx)})");
    assert!(t.is_well_formed());
    let y = Type::Base(Base::Byte);
    assert_eq!(y.depth(), 0);
    assert_eq!(y.text_len(), 1);
}

#[test]
fn a_struct_built_by_hand_without_members_is_not_well_formed() {
    let t = Type::Container(Container::Array(Box::new(Type::Container(
        Container::Struct(StructTypes(vec![])),
    ))));
    assert!(!t.is_well_formed());
}

#[test]
fn duplicate_is_the_same_type() {
    let t = &Type::parse_description("a{s(ia(yv))}").unwrap()[0];
    let copy = t.duplicate();
    assert!(copy.same(t));
    assert!(!copy.same(&Type::parse_description("a{s(ia(yy))}").unwrap()[0]));
}

#[test]
fn iterator_walks_type_by_type() {
    let mut iter = SignatureIter::new("a{su}(tsb)y");
    assert_eq!(iter.next(), Some("a{su}"));
    assert_eq!(iter.pos(), 5);
    assert_eq!(iter.next(), Some("(tsb)"));
    assert_eq!(iter.next(), Some("y"));
    assert_eq!(iter.next(), None);
    assert_eq!(iter.pos(), 11);
    assert_eq!(SignatureIter::new("a{su}(tsb)y").count(), 3);
    assert_eq!(SignatureIter::new_at_idx("a{su}(tsb)y", 5).count(), 2);
    assert_eq!(SignatureIter::new("").count(), 0);
}

#[test]
fn iterator_stops_at_what_is_no_type() {
    let mut iter = SignatureIter::new("y(ua");
    assert_eq!(iter.next(), Some("y"));
    assert_eq!(iter.next(), None);
    assert_eq!(iter.pos(), 1);
    assert_eq!(SignatureIter::new("y(ua").count(), 1);
    assert_eq!(SignatureIter::new("yé").count(), 0);
}

#[test]
fn iterator_gives_the_type_itself() {
    let mut iter = SignatureIter::new("yau");
    assert!(iter.next_type().unwrap().same(&Type::Base(Base::Byte)));
    assert!(iter
        .next_type()
        .unwrap()
        .same(&Type::parse_description("au").unwrap()[0]));
    assert!(iter.next_type().is_none());
}
