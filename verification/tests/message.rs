use rustbus::message_builder::DynamicHeader;
use rustbus::message_builder::HeaderFlags;
use rustbus::message_builder::MarshalledMessage;
use rustbus::message_builder::MessageBuilder;
use rustbus::message_builder::MessageType;
use rustbus::params::Base;
use rustbus::params::Param;
use rustbus::wire::errors::UnmarshalError;
use rustbus::wire::UnixFd;
use rustbus::ByteOrder;

#[test]
fn flags_have_their_bits() {
    assert_eq!(HeaderFlags::NoReplyExpected.into_raw(), 1);
    assert_eq!(HeaderFlags::NoAutoStart.into_raw(), 2);
    assert_eq!(HeaderFlags::AllowInteractiveAuthorization.into_raw(), 4);
}

#[test]
fn every_flag_can_be_seen() {
    assert!(HeaderFlags::NoReplyExpected.is_set(1));
    assert!(HeaderFlags::NoAutoStart.is_set(2));
    assert!(HeaderFlags::AllowInteractiveAuthorization.is_set(4));
    assert!(HeaderFlags::NoAutoStart.is_set(7));
    assert!(!HeaderFlags::NoAutoStart.is_set(5));
    assert!(!HeaderFlags::NoReplyExpected.is_set(6));
    assert!(!HeaderFlags::AllowInteractiveAuthorization.is_set(0xfb));
}

#[test]
fn flags_are_set_cleared_and_toggled() {
    let all = [
        HeaderFlags::NoReplyExpected,
        HeaderFlags::NoAutoStart,
        HeaderFlags::AllowInteractiveAuthorization,
    ];
    for start in 0..=255u8 {
        for flag in all {
            let mut f = start;
            flag.set(&mut f);
            assert_eq!(f, start | flag.into_raw());
            assert!(flag.is_set(f));
            flag.unset(&mut f);
            assert_eq!(f, start & !flag.into_raw());
            assert!(!flag.is_set(f));
            let mut f = start;
            flag.toggle(&mut f);
            assert_eq!(f, start ^ flag.into_raw());
            flag.toggle(&mut f);
            assert_eq!(f, start);
        }
    }
}

#[test]
fn a_call_is_built_step_by_step() {
    let msg = MessageBuilder::with_byteorder(ByteOrder::BigEndian)
        .call("Method")
        .on("/an/object")
        .with_interface("an.interface")
        .at("a.service")
        .build();
    assert_eq!(msg.typ, MessageType::Call);
    assert_eq!(msg.flags, 0);
    assert_eq!(msg.dynheader.member.as_deref(), Some("Method"));
    assert_eq!(msg.dynheader.object.as_deref(), Some("/an/object"));
    assert_eq!(msg.dynheader.interface.as_deref(), Some("an.interface"));
    assert_eq!(msg.dynheader.destination.as_deref(), Some("a.service"));
    assert_eq!(msg.dynheader.sender, None);
    assert_eq!(msg.dynheader.serial, None);
    assert_eq!(msg.dynheader.error_name, None);
    assert_eq!(msg.body.byteorder(), ByteOrder::BigEndian);
    assert_eq!(msg.get_buf(), &[] as &[u8]);
    assert_eq!(msg.get_sig(), "");
}

#[test]
fn a_signal_is_built_step_by_step() {
    let msg = MessageBuilder::new()
        .signal("io.killingspark", "Signal", "/io/killingspark/Signaler")
        .to("a.listener")
        .build();
    assert_eq!(msg.typ, MessageType::Signal);
    assert_eq!(msg.dynheader.interface.as_deref(), Some("io.killingspark"));
    assert_eq!(msg.dynheader.member.as_deref(), Some("Signal"));
    assert_eq!(
        msg.dynheader.object.as_deref(),
        Some("/io/killingspark/Signaler")
    );
    assert_eq!(msg.dynheader.destination.as_deref(), Some("a.listener"));
    let bare = MessageBuilder::new().signal("i", "m", "/o").build();
    assert_eq!(bare.dynheader.destination, None);
}

#[test]
fn a_new_message_is_of_no_kind() {
    let mut msg = MarshalledMessage::new();
    assert_eq!(msg.typ, MessageType::Invalid);
    assert_eq!(msg.flags, 0);
    assert!(msg.dynheader.member.is_none());
    msg.reserve(64);
    msg.body.push_param(1u8).unwrap();
    assert_eq!(msg.get_buf(), &[1]);
    assert_eq!(msg.get_sig(), "y");
    let be = MarshalledMessage::with_byteorder(ByteOrder::BigEndian);
    assert_eq!(be.body.byteorder(), ByteOrder::BigEndian);
}

fn received() -> DynamicHeader {
    let mut h = DynamicHeader::new();
    h.sender = Some(":1.5".to_owned());
    h.serial = Some(77);
    h.member = Some("Method".to_owned());
    h.destination = Some("me".to_owned());
    h.num_fds = Some(1);
    h
}

#[test]
fn a_response_goes_back_to_the_sender() {
    let resp = received().make_response();
    assert_eq!(resp.typ, MessageType::Reply);
    assert_eq!(resp.flags, 0);
    assert_eq!(resp.dynheader.destination.as_deref(), Some(":1.5"));
    assert_eq!(resp.dynheader.response_serial, Some(77));
    assert_eq!(resp.dynheader.error_name, None);
    assert_eq!(resp.dynheader.member, None);
    assert_eq!(resp.dynheader.sender, None);
    assert_eq!(resp.dynheader.serial, None);
    assert_eq!(resp.dynheader.num_fds, None);
    assert_eq!(resp.get_sig(), "");
    assert!(resp.get_buf().is_empty());

    let anonymous = DynamicHeader::new().make_response();
    assert_eq!(anonymous.dynheader.destination, None);
    assert_eq!(anonymous.dynheader.response_serial, None);
}

#[test]
fn an_error_response_names_the_error() {
    let resp = received().make_error_response("an.error", None);
    assert_eq!(resp.typ, MessageType::Reply);
    assert_eq!(resp.dynheader.destination.as_deref(), Some(":1.5"));
    assert_eq!(resp.dynheader.response_serial, Some(77));
    assert_eq!(resp.dynheader.error_name.as_deref(), Some("an.error"));
    assert_eq!(resp.get_sig(), "");

    let resp = received().make_error_response("an.error", Some("what went wrong".to_owned()));
    assert_eq!(resp.dynheader.error_name.as_deref(), Some("an.error"));
    assert_eq!(resp.get_sig(), "s");
    assert_eq!(resp.body.parser().get::<&str>(), Ok("what went wrong"));
    assert_eq!(resp.body.validate(), Ok(()));
}

#[test]
fn a_header_is_copied_field_by_field() {
    let h = received();
    let c = h.clone();
    assert_eq!(c.sender, h.sender);
    assert_eq!(c.serial, h.serial);
    assert_eq!(c.member, h.member);
    assert_eq!(c.destination, h.destination);
    assert_eq!(c.num_fds, h.num_fds);
    assert_eq!(c.interface, None);
}

#[test]
fn all_values_of_a_message_are_read_at_once() {
    let mut msg = MessageBuilder::with_byteorder(ByteOrder::LittleEndian)
        .call("M")
        .build();
    msg.flags = 2;
    msg.body
        .push_param3(1u8, "two", UnixFd::new(3))
        .unwrap();
    let read = msg.unmarshall_all().unwrap();
    assert_eq!(read.typ, MessageType::Call);
    assert_eq!(read.flags, 2);
    assert_eq!(read.dynheader.member.as_deref(), Some("M"));
    assert_eq!(read.raw_fds, vec![UnixFd::new(3)]);
    assert_eq!(read.params.len(), 3);
    assert!(matches!(read.params[0], Param::Base(Base::Byte(1))));
    match &read.params[1] {
        Param::Base(Base::String(s)) => assert_eq!(s, "two"),
        other => panic!("{:?}", other),
    }
    assert!(matches!(
        read.params[2],
        Param::Base(Base::UnixFd(UnixFd { fd: 3 }))
    ));

    let empty = MarshalledMessage::new().unmarshall_all().unwrap();
    assert!(empty.params.is_empty());
}

#[test]
fn a_message_that_cannot_be_read() {
    let mut msg = MarshalledMessage::new();
    msg.body = rustbus::message_builder::MarshalledMessageBody::from_parts(
        vec![1],
        vec![],
        "u".to_owned(),
        ByteOrder::LittleEndian,
    );
    assert!(matches!(
        msg.unmarshall_all(),
        Err(UnmarshalError::NotEnoughBytes)
    ));
    let mut msg = MarshalledMessage::new();
    msg.body = rustbus::message_builder::MarshalledMessageBody::from_parts(
        vec![1],
        vec![],
        "a".to_owned(),
        ByteOrder::LittleEndian,
    );
    assert!(matches!(
        msg.unmarshall_all(),
        Err(UnmarshalError::InvalidSignature)
    ));
}

#[test]
fn defaults_are_empty() {
    let h = DynamicHeader::default();
    assert!(h.member.is_none() && h.serial.is_none());
    let m = MarshalledMessage::default();
    assert_eq!(m.typ, MessageType::Invalid);
    assert_eq!(m.get_sig(), "");
    let b = rustbus::message_builder::MarshalledMessageBody::default();
    assert!(b.get_buf().is_empty());
    let built = MessageBuilder::default().call("m").build();
    assert_eq!(built.typ, MessageType::Call);
}
