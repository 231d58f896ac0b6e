//! Messages while they are built, and the body that carries their values.
use crate::params;
use crate::params::SpecParam;
use crate::signature;
use crate::signature::SpecType;
use crate::wire::errors::MarshalError;
use crate::wire::marshal::container::marshal_param;
use crate::wire::marshal::marshal_post;
use crate::wire::marshal::marshal_spec;
use crate::wire::marshal::traits::Marshal;
use crate::wire::marshal::traits::SignatureBuffer;
use crate::wire::marshal::type_fault;
use crate::wire::marshal::MarshalContext;
use crate::wire::marshal::Wire;
use crate::wire::UnixFd;
use crate::ByteOrder;
use crate::params::message;
use crate::signature::parse_description_spec;
use crate::signature::token_end;
use crate::signature::tokens_left;
use crate::signature::SignatureIter;
use crate::wire::errors::UnmarshalError;
use crate::wire::marshal::traits::Signature;
use crate::wire::unmarshal::traits::Unmarshal;
use crate::wire::unmarshal::unmarshal_fields;
use crate::wire::unmarshal::unmarshal_spec;
use crate::wire::unmarshal::UnmarshalContext;
use crate::wire::validate_raw;
use crate::wire::validate_raw::validate_fields;
use vstd::prelude::*;
use vstd::utf8::encode_utf8;

verus! {

/// The kinds of message.
#[derive(Copy, Clone, Debug, PartialEq, Eq, Structural)]
pub enum MessageType {
    Signal,
    Error,
    Call,
    Reply,
    Invalid,
}

/// The flags of a message header.
#[derive(Copy, Clone, Debug, PartialEq, Eq, Structural)]
pub enum HeaderFlags {
    NoReplyExpected,
    NoAutoStart,
    AllowInteractiveAuthorization,
}

impl HeaderFlags {
    /// The bit of this flag.
    pub open spec fn raw(self) -> u8 {
        match self {
            HeaderFlags::NoReplyExpected => 1,
            HeaderFlags::NoAutoStart => 2,
            HeaderFlags::AllowInteractiveAuthorization => 4,
        }
    }

    pub fn into_raw(self) -> (r: u8)
        ensures
            r == self.raw(),
    {
        match self {
            HeaderFlags::NoReplyExpected => 1,
            HeaderFlags::NoAutoStart => 2,
            HeaderFlags::AllowInteractiveAuthorization => 4,
        }
    }

    /// Whether this flag is set in `flags`.
    pub fn is_set(self, flags: u8) -> (b: bool)
        ensures
            b == (flags & self.raw() != 0),
    {
        flags & self.into_raw() != 0
    }

    /// Sets this flag in `flags`.
    pub fn set(self, flags: &mut u8)
        ensures
            *final(flags) == *old(flags) | self.raw(),
    {
        *flags = *flags | self.into_raw();
    }

    /// Clears this flag in `flags`.
    pub fn unset(self, flags: &mut u8)
        ensures
            *final(flags) == *old(flags) & !self.raw(),
    {
        let bit = self.into_raw();
        assert((0xFFu8 - bit) as u8 == !bit) by (bit_vector)
            requires
                bit == 1 || bit == 2 || bit == 4,
        ;
        *flags = *flags & (0xFF - bit);
    }

    /// Sets this flag in `flags` if it is clear, and clears it if it is set.
    pub fn toggle(self, flags: &mut u8)
        ensures
            *final(flags) == *old(flags) ^ self.raw(),
    {
        let bit = self.into_raw();
        let before = *flags;
        assert(before & bit != 0 ==> before & !bit == before ^ bit) by (bit_vector)
            requires
                bit == 1 || bit == 2 || bit == 4,
        ;
        assert(before & bit == 0 ==> before | bit == before ^ bit) by (bit_vector)
            requires
                bit == 1 || bit == 2 || bit == 4,
        ;
        if self.is_set(*flags) {
            self.unset(flags)
        } else {
            self.set(flags)
        }
    }
}

/// A flag is set once it was set and clear once it was cleared, toggling
/// twice changes nothing, and none of the three touches another flag.
pub proof fn lemma_header_flags(flag: HeaderFlags, other: HeaderFlags, flags: u8)
    ensures
        (flags | flag.raw()) & flag.raw() != 0,
        (flags & !flag.raw()) & flag.raw() == 0,
        (flags ^ flag.raw()) ^ flag.raw() == flags,
        ((flags ^ flag.raw()) & flag.raw() != 0) == (flags & flag.raw() == 0),
        other != flag ==> (flags | flag.raw()) & other.raw() == flags & other.raw(),
        other != flag ==> (flags & !flag.raw()) & other.raw() == flags & other.raw(),
        other != flag ==> (flags ^ flag.raw()) & other.raw() == flags & other.raw(),
{
    let a = flag.raw();
    let b = other.raw();
    assert((flags | a) & a != 0 && (flags & !a) & a == 0 && (flags ^ a) ^ a == flags && (((flags
        ^ a) & a != 0) == (flags & a == 0))) by (bit_vector)
        requires
            a == 1 || a == 2 || a == 4,
    ;
    if other != flag {
        assert((flags | a) & b == flags & b && (flags & !a) & b == flags & b && (flags ^ a) & b
            == flags & b) by (bit_vector)
            requires
                a == 1 || a == 2 || a == 4,
                b == 1 || b == 2 || b == 4,
                a != b,
        ;
    }
}

/// The text of an optional string.
pub open spec fn opt_text(o: Option<String>) -> Option<Seq<char>> {
    match o {
        Some(s) => Some(s@),
        None => None,
    }
}

fn clone_text(o: &Option<String>) -> (r: Option<String>)
    ensures
        opt_text(r) == opt_text(*o),
{
    match o {
        Some(s) => Some(s.clone()),
        None => None,
    }
}

/// The fields of a message header that are not always there.
#[derive(Debug)]
pub struct DynamicHeader {
    pub interface: Option<String>,
    pub member: Option<String>,
    pub object: Option<String>,
    pub destination: Option<String>,
    pub serial: Option<u32>,
    pub sender: Option<String>,
    pub signature: Option<String>,
    pub error_name: Option<String>,
    pub response_serial: Option<u32>,
    pub num_fds: Option<u32>,
}

impl DynamicHeader {
    /// Whether no field is there.
    pub open spec fn is_blank(&self) -> bool {
        &&& self.interface is None
        &&& self.member is None
        &&& self.object is None
        &&& self.destination is None
        &&& self.serial is None
        &&& self.sender is None
        &&& self.signature is None
        &&& self.error_name is None
        &&& self.response_serial is None
        &&& self.num_fds is None
    }

    /// Whether `self` is the header of an answer to a message with the
    /// header `to`: addressed to its sender, with its serial as the
    /// response serial, with the error name `error_name`, and nothing else.
    pub open spec fn answers(&self, to: &DynamicHeader, error_name: Option<Seq<char>>) -> bool {
        &&& self.interface is None
        &&& self.member is None
        &&& self.object is None
        &&& opt_text(self.destination) == opt_text(to.sender)
        &&& self.serial is None
        &&& self.sender is None
        &&& self.signature is None
        &&& opt_text(self.error_name) == error_name
        &&& self.response_serial == to.serial
        &&& self.num_fds is None
    }

    /// A header without any field.
    pub fn new() -> (r: DynamicHeader)
        ensures
            r.is_blank(),
    {
        DynamicHeader {
            interface: None,
            member: None,
            object: None,
            destination: None,
            serial: None,
            sender: None,
            signature: None,
            error_name: None,
            response_serial: None,
            num_fds: None,
        }
    }

    /// A copy of this header.
    pub fn duplicate(&self) -> (r: DynamicHeader)
        ensures
            opt_text(r.interface) == opt_text(self.interface),
            opt_text(r.member) == opt_text(self.member),
            opt_text(r.object) == opt_text(self.object),
            opt_text(r.destination) == opt_text(self.destination),
            r.serial == self.serial,
            opt_text(r.sender) == opt_text(self.sender),
            opt_text(r.signature) == opt_text(self.signature),
            opt_text(r.error_name) == opt_text(self.error_name),
            r.response_serial == self.response_serial,
            r.num_fds == self.num_fds,
    {
        DynamicHeader {
            interface: clone_text(&self.interface),
            member: clone_text(&self.member),
            object: clone_text(&self.object),
            destination: clone_text(&self.destination),
            serial: self.serial,
            sender: clone_text(&self.sender),
            signature: clone_text(&self.signature),
            error_name: clone_text(&self.error_name),
            response_serial: self.response_serial,
            num_fds: self.num_fds,
        }
    }

    /// The error answer to the message with this header: a reply that
    /// goes to its sender and names its serial, with `error_name` as the
    /// error and, if there is one, `error_msg` as the only value of the body.
    pub fn make_error_response(&self, error_name: &str, error_msg: Option<String>) -> (r:
        MarshalledMessage)
        requires
            error_msg matches Some(text) ==> encode_utf8(text@).len() <= u32::MAX,
        ensures
            r.typ == MessageType::Reply,
            r.flags == 0,
            r.dynheader.answers(self, Some(error_name@)),
            match error_msg {
                Some(text) => r.body.state() == (BodyState {
                    wire: Wire {
                        buf: crate::wire::util::string_wire(r.body.order(), text@),
                        fds: Seq::empty(),
                    },
                    sig: seq!['s'],
                }),
                None => r.body.state() == BodyState::empty(),
            },
    {
        let mut err_resp = MarshalledMessage {
            typ: MessageType::Reply,
            dynheader: DynamicHeader {
                interface: None,
                member: None,
                object: None,
                destination: clone_text(&self.sender),
                serial: None,
                num_fds: None,
                sender: None,
                signature: None,
                response_serial: self.serial,
                error_name: Some(error_name.to_owned()),
            },
            flags: 0,
            body: MarshalledMessageBody::new(),
        };
        if let Some(text) = error_msg {
            proof {
                lemma_push_string(BodyState::empty(), err_resp.body.order(), text@);
            }
            let pushed = err_resp.body.push_param(text);
            assert(pushed is Ok);
            assert(err_resp.body.state() =~~= (BodyState {
                wire: Wire {
                    buf: crate::wire::util::string_wire(err_resp.body.order(), text@),
                    fds: Seq::empty(),
                },
                sig: seq!['s'],
            }));
        }
        err_resp
    }

    /// The answer to the message with this header: a reply that goes to
    /// its sender and names its serial, with an empty body.
    pub fn make_response(&self) -> (r: MarshalledMessage)
        ensures
            r.typ == MessageType::Reply,
            r.flags == 0,
            r.dynheader.answers(self, None),
            r.body.state() == BodyState::empty(),
    {
        MarshalledMessage {
            typ: MessageType::Reply,
            dynheader: DynamicHeader {
                interface: None,
                member: None,
                object: None,
                destination: clone_text(&self.sender),
                serial: None,
                num_fds: None,
                sender: None,
                signature: None,
                response_serial: self.serial,
                error_name: None,
            },
            flags: 0,
            body: MarshalledMessageBody::new(),
        }
    }
}

/// What pushing a string of a length that a `u32` can say comes to: the
/// payload is padded to 4 and gets the wire form of the string, the
/// signature gets an `s`.
pub proof fn lemma_push_string(st: BodyState, bo: ByteOrder, text: Seq<char>)
    requires
        st.sig.len() < signature::MAX_SIGNATURE_LEN,
        encode_utf8(text).len() <= u32::MAX,
    ensures
        push_spec(st, bo, SpecParam::String(text), SpecType::Base(signature::Base::String))
            == Ok::<BodyState, MarshalError>(
            BodyState {
                wire: st.wire.pad(4).put(crate::wire::util::string_wire(bo, text)),
                sig: st.sig.push('s'),
            },
        ),
{
    assert(st.sig + SpecType::Base(signature::Base::String).text() =~= st.sig.push('s'));
    reveal(marshal_spec);
    reveal(crate::wire::marshal::marshal_base_spec);
}

/// Where new messages start: it becomes a call or a signal.
pub struct MessageBuilder {
    msg: MarshalledMessage,
}

/// Builds a call of a method of a service.
pub struct CallBuilder {
    msg: MarshalledMessage,
}

/// Builds a signal.
pub struct SignalBuilder {
    msg: MarshalledMessage,
}

impl MessageBuilder {
    /// The message that is being built.
    pub closed spec fn msg(&self) -> MarshalledMessage {
        self.msg
    }

    /// A builder in the byte order of this machine.
    pub fn new() -> (r: MessageBuilder)
        ensures
            r.msg().is_fresh(),
    {
        MessageBuilder { msg: MarshalledMessage::new() }
    }

    /// A builder in the byte order `b`.
    pub fn with_byteorder(b: ByteOrder) -> (r: MessageBuilder)
        ensures
            r.msg().is_fresh(),
            r.msg().body.order() == b,
    {
        MessageBuilder { msg: MarshalledMessage::with_byteorder(b) }
    }

    /// Makes the message a call of the method `member`.
    pub fn call(self, member: &str) -> (r: CallBuilder)
        ensures
            r.msg().typ == MessageType::Call,
            r.msg().flags == self.msg().flags,
            r.msg().body == self.msg().body,
            opt_text(r.msg().dynheader.member) == Some(member@),
            r.msg().dynheader == (DynamicHeader {
                member: r.msg().dynheader.member,
                ..self.msg().dynheader
            }),
    {
        let mut msg = self.msg;
        msg.typ = MessageType::Call;
        msg.dynheader.member = Some(member.to_owned());
        CallBuilder { msg }
    }

    /// Makes the message the signal `member` of `interface`, sent by `object`.
    pub fn signal(self, interface: &str, member: &str, object: &str) -> (r: SignalBuilder)
        ensures
            r.msg().typ == MessageType::Signal,
            r.msg().flags == self.msg().flags,
            r.msg().body == self.msg().body,
            opt_text(r.msg().dynheader.member) == Some(member@),
            opt_text(r.msg().dynheader.interface) == Some(interface@),
            opt_text(r.msg().dynheader.object) == Some(object@),
            r.msg().dynheader == (DynamicHeader {
                member: r.msg().dynheader.member,
                interface: r.msg().dynheader.interface,
                object: r.msg().dynheader.object,
                ..self.msg().dynheader
            }),
    {
        let mut msg = self.msg;
        msg.typ = MessageType::Signal;
        msg.dynheader.member = Some(member.to_owned());
        msg.dynheader.interface = Some(interface.to_owned());
        msg.dynheader.object = Some(object.to_owned());
        SignalBuilder { msg }
    }
}

impl CallBuilder {
    /// The message that is being built.
    pub closed spec fn msg(&self) -> MarshalledMessage {
        self.msg
    }

    /// Sets the object that is called.
    pub fn on(self, object_path: &str) -> (r: CallBuilder)
        ensures
            opt_text(r.msg().dynheader.object) == Some(object_path@),
            r.msg() == (MarshalledMessage {
                dynheader: DynamicHeader {
                    object: r.msg().dynheader.object,
                    ..self.msg().dynheader
                },
                ..self.msg()
            }),
    {
        let mut msg = self.msg;
        msg.dynheader.object = Some(object_path.to_owned());
        CallBuilder { msg }
    }

    /// Sets the interface of the method.
    pub fn with_interface(self, interface: &str) -> (r: CallBuilder)
        ensures
            opt_text(r.msg().dynheader.interface) == Some(interface@),
            r.msg() == (MarshalledMessage {
                dynheader: DynamicHeader {
                    interface: r.msg().dynheader.interface,
                    ..self.msg().dynheader
                },
                ..self.msg()
            }),
    {
        let mut msg = self.msg;
        msg.dynheader.interface = Some(interface.to_owned());
        CallBuilder { msg }
    }

    /// Sets the service that is called.
    pub fn at(self, destination: &str) -> (r: CallBuilder)
        ensures
            opt_text(r.msg().dynheader.destination) == Some(destination@),
            r.msg() == (MarshalledMessage {
                dynheader: DynamicHeader {
                    destination: r.msg().dynheader.destination,
                    ..self.msg().dynheader
                },
                ..self.msg()
            }),
    {
        let mut msg = self.msg;
        msg.dynheader.destination = Some(destination.to_owned());
        CallBuilder { msg }
    }

    /// The message.
    pub fn build(self) -> (r: MarshalledMessage)
        ensures
            r == self.msg(),
    {
        self.msg
    }
}

impl SignalBuilder {
    /// The message that is being built.
    pub closed spec fn msg(&self) -> MarshalledMessage {
        self.msg
    }

    /// Sets the service that the signal goes to.
    pub fn to(self, destination: &str) -> (r: SignalBuilder)
        ensures
            opt_text(r.msg().dynheader.destination) == Some(destination@),
            r.msg() == (MarshalledMessage {
                dynheader: DynamicHeader {
                    destination: r.msg().dynheader.destination,
                    ..self.msg().dynheader
                },
                ..self.msg()
            }),
    {
        let mut msg = self.msg;
        msg.dynheader.destination = Some(destination.to_owned());
        SignalBuilder { msg }
    }

    /// The message.
    pub fn build(self) -> (r: MarshalledMessage)
        ensures
            r == self.msg(),
    {
        self.msg
    }
}

/// A message that was received, or that is made ready to be sent.
#[derive(Debug)]
pub struct MarshalledMessage {
    pub body: MarshalledMessageBody,
    pub dynheader: DynamicHeader,
    pub typ: MessageType,
    pub flags: u8,
}

impl MarshalledMessage {
    /// Whether this is a message as a builder starts with it: of no kind
    /// yet, without flags, header fields or values.
    pub open spec fn is_fresh(&self) -> bool {
        &&& self.typ == MessageType::Invalid
        &&& self.flags == 0
        &&& self.dynheader.is_blank()
        &&& self.body.state() == BodyState::empty()
    }

    pub fn get_buf(&self) -> (r: &[u8])
        ensures
            r@ == self.body.state().wire.buf,
    {
        self.body.get_buf()
    }

    pub fn get_sig(&self) -> (r: &str)
        ensures
            r@ == self.body.state().sig,
    {
        self.body.get_sig()
    }

    /// A message of no kind yet, in the byte order of this machine.
    pub fn new() -> (r: MarshalledMessage)
        ensures
            r.is_fresh(),
    {
        MarshalledMessage {
            typ: MessageType::Invalid,
            dynheader: DynamicHeader::new(),
            flags: 0,
            body: MarshalledMessageBody::new(),
        }
    }

    /// A message of no kind yet, in the byte order `b`.
    pub fn with_byteorder(b: ByteOrder) -> (r: MarshalledMessage)
        ensures
            r.is_fresh(),
            r.body.order() == b,
    {
        MarshalledMessage {
            typ: MessageType::Invalid,
            dynheader: DynamicHeader::new(),
            flags: 0,
            body: MarshalledMessageBody::with_byteorder(b),
        }
    }

    /// Makes room for `additional` more bytes of payload.
    pub fn reserve(&mut self, additional: usize)
        ensures
            final(self).body.state() == old(self).body.state(),
            final(self).body.order() == old(self).body.order(),
            final(self).dynheader == old(self).dynheader,
            final(self).typ == old(self).typ,
            final(self).flags == old(self).flags,
    {
        self.body.reserve(additional)
    }
}

/// The values of a body with the signature `sig`: none where the
/// signature is empty, else one value for each of its types.
pub open spec fn body_values(st: BodyState, bo: ByteOrder) -> Result<
    Seq<SpecParam>,
    UnmarshalError,
> {
    if st.sig.len() == 0 {
        Ok(Seq::empty())
    } else {
        match parse_description_spec(st.sig) {
            Err(_) => Err(UnmarshalError::InvalidSignature),
            Ok(ts) => match unmarshal_fields(ts, 0, bo, st.wire.buf, 0, st.wire.fds) {
                Err(e) => Err(e),
                Ok((_, vs)) => Ok(vs),
            },
        }
    }
}

impl MarshalledMessage {
    /// Reads all the values of the body.
    pub fn unmarshall_all(self) -> (r: Result<message::Message, UnmarshalError>)
        ensures
            match r {
                Ok(m) => body_values(self.body.state(), self.body.order()) == Ok::<
                    Seq<SpecParam>,
                    UnmarshalError,
                >(params::params_model(m.params@, m.params@.len())) && m.dynheader
                    == self.dynheader && m.typ == self.typ && m.flags == self.flags && m.raw_fds@
                    == self.body.state().wire.fds,
                Err(e) => body_values(self.body.state(), self.body.order()) == Err::<
                    Seq<SpecParam>,
                    UnmarshalError,
                >(e),
            },
    {
        let params = if self.body.sig.is_empty() {
            Vec::new()
        } else {
            let sigs = match signature::Type::parse_description(self.body.sig.as_str()) {
                Ok(sigs) => sigs,
                Err(_) => {
                    return Err(UnmarshalError::InvalidSignature);
                },
            };
            proof {
                signature::lemma_parse_description_wf(self.body.sig@);
            }
            let (_, params) = crate::wire::unmarshal::container::unmarshal_body(
                self.body.ctx.byteorder,
                &sigs,
                self.body.ctx.buf.as_slice(),
                self.body.ctx.fds.as_slice(),
                0,
            )?;
            params
        };
        Ok(
            message::Message {
                dynheader: self.dynheader,
                params,
                typ: self.typ,
                flags: self.flags,
                raw_fds: self.body.ctx.fds,
            },
        )
    }
}

/// What a body holds: the payload with its file descriptors, and the
/// signature of the values in it.
#[verifier::ext_equal]
pub struct BodyState {
    pub wire: Wire,
    pub sig: Seq<char>,
}

impl BodyState {
    /// The body without values.
    pub open spec fn empty() -> BodyState {
        BodyState {
            wire: Wire { buf: Seq::empty(), fds: Seq::empty() },
            sig: Seq::empty(),
        }
    }
}

/// The body after the value `p` of type `t` has been pushed, or why it
/// cannot be pushed: its type is one that no signature can hold, the
/// signature would grow beyond 255 characters, or the value cannot be written.
pub open spec fn push_spec(st: BodyState, bo: ByteOrder, p: SpecParam, t: SpecType) -> Result<
    BodyState,
    MarshalError,
> {
    match type_fault(t) {
        Some(e) => Err(e),
        None => if st.sig.len() + t.text().len() > signature::MAX_SIGNATURE_LEN {
            Err(MarshalError::TooLong)
        } else {
            match marshal_spec(p, bo, st.wire) {
                Err(e) => Err(e),
                Ok(w) => Ok(BodyState { wire: w, sig: st.sig + t.text() }),
            }
        },
    }
}

/// The body after the first `n` values of `ps` have been pushed in order,
/// or why the first of them that cannot be pushed cannot.
pub open spec fn push_seq_spec(st: BodyState, bo: ByteOrder, ps: Seq<SpecParam>, n: nat) -> Result<
    BodyState,
    MarshalError,
>
    decreases n,
{
    if n == 0 || n > ps.len() {
        Ok(st)
    } else {
        match push_seq_spec(st, bo, ps, (n - 1) as nat) {
            Err(e) => Err(e),
            Ok(s1) => push_spec(s1, bo, ps[n - 1], ps[n - 1].ty()),
        }
    }
}

/// What a push owes: the body that the pushes call for, which holds
/// behind what it held before what was added; or their error and the body
/// as it was.
pub open spec fn push_post(
    before: BodyState,
    after: BodyState,
    wanted: Result<BodyState, MarshalError>,
    r: Result<(), MarshalError>,
) -> bool {
    match wanted {
        Ok(st) => r is Ok && after == st && after.wire.extends(before.wire)
            && before.sig.is_prefix_of(after.sig),
        Err(e) => r == Err::<(), MarshalError>(e) && after == before,
    }
}

/// The body of a message: the values, written one after the other, and
/// their signature.
#[derive(Debug)]
pub struct MarshalledMessageBody {
    ctx: MarshalContext,
    sig: SignatureBuffer,
}

/// The lengths of a body at one moment, to go back to.
struct Snapshot {
    sig_len: usize,
    buf_len: usize,
    fds_len: usize,
}

impl MarshalledMessageBody {
    /// What the body holds.
    pub closed spec fn state(&self) -> BodyState {
        BodyState { wire: self.ctx@, sig: self.sig@ }
    }

    /// The byte order of the body.
    pub closed spec fn order(&self) -> ByteOrder {
        self.ctx.byteorder
    }

    /// Whether the body is valid: its payload holds one value for each
    /// type of its signature, and nothing else.
    pub open spec fn is_valid(&self) -> bool {
        validate_body_spec(self.state(), self.order()) is Ok
    }

    /// A body without values, in the byte order of this machine.
    pub fn new() -> (r: MarshalledMessageBody)
        ensures
            r.state() == BodyState::empty(),
            r.is_valid(),
    {
        MarshalledMessageBody {
            ctx: MarshalContext::new(ByteOrder::native()),
            sig: SignatureBuffer::new(),
        }
    }

    /// A body without values, in the byte order `b`.
    pub fn with_byteorder(b: ByteOrder) -> (r: MarshalledMessageBody)
        ensures
            r.state() == BodyState::empty(),
            r.order() == b,
            r.is_valid(),
    {
        MarshalledMessageBody { ctx: MarshalContext::new(b), sig: SignatureBuffer::new() }
    }

    /// The body that holds what was received: a payload, its file
    /// descriptors and its signature. Nothing is checked here: see `validate`.
    pub fn from_parts(buf: Vec<u8>, raw_fds: Vec<UnixFd>, sig: String, byteorder: ByteOrder) -> (r:
        MarshalledMessageBody)
        ensures
            r.state() == (BodyState { wire: Wire { buf: buf@, fds: raw_fds@ }, sig: sig@ }),
            r.order() == byteorder,
    {
        MarshalledMessageBody {
            ctx: MarshalContext { buf, fds: raw_fds, byteorder },
            sig: SignatureBuffer::from_string(sig),
        }
    }

    /// The payload.
    pub fn get_buf(&self) -> (r: &[u8])
        ensures
            r@ == self.state().wire.buf,
    {
        self.ctx.buf.as_slice()
    }

    /// The signature of the values.
    pub fn get_sig(&self) -> (r: &str)
        ensures
            r@ == self.state().sig,
    {
        self.sig.as_str()
    }

    /// The byte order.
    pub fn byteorder(&self) -> (r: ByteOrder)
        ensures
            r == self.order(),
    {
        self.ctx.byteorder
    }

    /// The file descriptors that the payload refers to.
    pub fn get_fds(&self) -> (r: Vec<UnixFd>)
        ensures
            r@ == self.state().wire.fds,
    {
        let mut fds: Vec<UnixFd> = Vec::new();
        let mut i: usize = 0;
        while i < self.ctx.fds.len()
            invariant
                i <= self.ctx.fds.len(),
                fds@ == self.ctx.fds@.subrange(0, i as int),
            decreases self.ctx.fds.len() - i,
        {
            fds.push(self.ctx.fds[i]);
            i += 1;
            assert(fds@ =~= self.ctx.fds@.subrange(0, i as int));
        }
        assert(fds@ =~= self.ctx.fds@);
        fds
    }

    /// Empties the body and keeps its memory: values can be pushed as
    /// onto a new body.
    pub fn reset(&mut self)
        ensures
            final(self).state() == BodyState::empty(),
            final(self).order() == old(self).order(),
            final(self).is_valid(),
    {
        self.sig.clear();
        self.ctx.buf.clear();
        self.ctx.fds.clear();
    }

    /// Makes room for `additional` more bytes of payload.
    pub fn reserve(&mut self, additional: usize)
        ensures
            final(self).state() == old(self).state(),
            final(self).order() == old(self).order(),
    {
        self.ctx.buf.reserve(additional);
        assert(self.state() =~~= old(self).state());
    }

    /// Checks all the values of the body: the payload must hold one value
    /// for each type of the signature, and nothing else.
    pub fn validate(&self) -> (r: Result<(), UnmarshalError>)
        ensures
            match validate_body_spec(self.state(), self.order()) {
                Ok(_) => r is Ok,
                Err(e) => r == Err::<(), UnmarshalError>(e),
            },
            r is Ok <==> self.is_valid(),
    {
        if self.sig.is_empty() && self.ctx.buf.len() == 0 {
            return Ok(());
        }
        let types = match signature::Type::parse_description(self.sig.as_str()) {
            Ok(t) => t,
            Err(_) => {
                return Err(UnmarshalError::InvalidSignature);
            },
        };
        proof {
            signature::lemma_parse_description_wf(self.sig@);
        }
        let used = match validate_raw::validate_run(
            self.ctx.byteorder,
            0,
            self.ctx.buf.as_slice(),
            &types,
        ) {
            Ok(n) => n,
            Err((_, e)) => {
                return Err(e);
            },
        };
        if used == self.ctx.buf.len() {
            Ok(())
        } else {
            Err(UnmarshalError::NotAllBytesUsed)
        }
    }

    /// A parser that stands before the first value of the body.
    pub fn parser(&self) -> (r: MessageBodyParser<'_>)
        ensures
            r.at() == (ParserState { buf_idx: 0, sig_idx: 0 }),
            r.body() == self,
    {
        MessageBodyParser::new(self)
    }

    fn snapshot(&self) -> (s: Snapshot)
        ensures
            s.sig_len == self.state().sig.len(),
            s.buf_len == self.state().wire.buf.len(),
            s.fds_len == self.state().wire.fds.len(),
    {
        Snapshot {
            sig_len: self.sig.len(),
            buf_len: self.ctx.buf.len(),
            fds_len: self.ctx.fds.len(),
        }
    }

    /// Cuts the body back to the lengths of `s`.
    fn rollback(&mut self, s: &Snapshot, Ghost(before): Ghost<BodyState>)
        requires
            s.sig_len == before.sig.len(),
            s.buf_len == before.wire.buf.len(),
            s.fds_len == before.wire.fds.len(),
            old(self).state().wire.extends(before.wire),
            before.sig.is_prefix_of(old(self).state().sig),
        ensures
            final(self).state() == before,
            final(self).order() == old(self).order(),
    {
        self.sig.restore(s.sig_len);
        self.ctx.buf.truncate(s.buf_len);
        self.ctx.fds.truncate(s.fds_len);
        assert(self.state() =~~= before);
    }

    /// Checks that a value of type `t` can be added to the signature.
    fn check_type(&self, t: &signature::Type) -> (r: Result<(), MarshalError>)
        ensures
            match type_fault(t@) {
                Some(e) => r == Err::<(), MarshalError>(e),
                None => if self.state().sig.len() + t@.text().len()
                    > signature::MAX_SIGNATURE_LEN {
                    r == Err::<(), MarshalError>(MarshalError::TooLong)
                } else {
                    r is Ok
                },
            },
    {
        if !t.is_well_formed() {
            return Err(MarshalError::EmptyStruct);
        }
        if t.depth() > signature::MAX_NESTING_DEPTH {
            return Err(MarshalError::ExceedsMaxDepth);
        }
        let len = t.text_len();
        if len > signature::MAX_SIGNATURE_LEN {
            return Err(MarshalError::TooLong);
        }
        if self.sig.len() > signature::MAX_SIGNATURE_LEN - len {
            return Err(MarshalError::TooLong);
        }
        Ok(())
    }

    /// Pushes a value whose type is known only at run time.
    pub fn push_old_param(&mut self, p: &params::Param) -> (r: Result<(), MarshalError>)
        ensures
            final(self).order() == old(self).order(),
            old(self).is_valid() ==> final(self).is_valid(),
            push_post(
                old(self).state(),
                final(self).state(),
                push_spec(old(self).state(), old(self).order(), p@, p@.ty()),
                r,
            ),
    {
        let t = p.sig();
        self.check_type(&t)?;
        let start = self.snapshot();
        match marshal_param(p, &mut self.ctx) {
            Ok(()) => {
                self.sig.push_type(&t);
                let total = self.ctx.buf.len();
                proof {
                    if old(self).is_valid() {
                        lemma_push_keeps_valid(old(self).state(), old(self).order(), p@);
                    }
                }
                Ok(())
            },
            Err(e) => {
                self.rollback(&start, Ghost(old(self).state()));
                Err(e)
            },
        }
    }

    /// Pushes values whose types are known only at run time, all of them
    /// or none.
    #[verifier::loop_isolation(false)]
    pub fn push_old_params(&mut self, ps: &[params::Param]) -> (r: Result<(), MarshalError>)
        ensures
            final(self).order() == old(self).order(),
            old(self).is_valid() ==> final(self).is_valid(),
            push_post(
                old(self).state(),
                final(self).state(),
                push_seq_spec(
                    old(self).state(),
                    old(self).order(),
                    params::params_model(ps@, ps@.len()),
                    ps@.len(),
                ),
                r,
            ),
    {
        let ghost before = self.state();
        let ghost bo = self.order();
        let ghost vs = params::params_model(ps@, ps@.len());
        proof {
            params::lemma_params_model(ps@, ps@.len());
        }
        let start = self.snapshot();
        let mut i: usize = 0;
        while i < ps.len()
            invariant
                i <= ps.len(),
                self.order() == bo,
                vs == params::params_model(ps@, ps@.len()),
                vs.len() == ps@.len(),
                forall|j: int| 0 <= j < vs.len() ==> (#[trigger] vs[j]) == ps@[j]@,
                push_seq_spec(before, bo, vs, i as nat) == Ok::<BodyState, MarshalError>(
                    self.state(),
                ),
                self.state().wire.extends(before.wire),
                before.sig.is_prefix_of(self.state().sig),
                validate_body_spec(before, bo) is Ok ==> self.is_valid(),
                start.sig_len == before.sig.len(),
                start.buf_len == before.wire.buf.len(),
                start.fds_len == before.wire.fds.len(),
            decreases ps.len() - i,
        {
            let ghost entered = self.state();
            match self.push_old_param(&ps[i]) {
                Ok(()) => {
                    proof {
                        crate::wire::marshal::lemma_extends_trans(
                            before.wire,
                            entered.wire,
                            self.state().wire,
                        );
                    }
                },
                Err(e) => {
                    proof {
                        lemma_push_seq_err(before, bo, vs, (i + 1) as nat, vs.len());
                    }
                    self.rollback(&start, Ghost(before));
                    return Err(e);
                },
            }
            i += 1;
        }
        Ok(())
    }

    /// Pushes a value: it is written behind the values that are there, and
    /// its type is added to the signature. A value that cannot be pushed
    /// leaves the body as it was.
    pub fn push_param<P: Marshal>(&mut self, p: P) -> (r: Result<(), MarshalError>)
        ensures
            final(self).order() == old(self).order(),
            old(self).is_valid() ==> final(self).is_valid(),
            push_post(
                old(self).state(),
                final(self).state(),
                push_spec(old(self).state(), old(self).order(), p.param(), P::sig_spec()),
                r,
            ),
    {
        let t = P::signature();
        self.check_type(&t)?;
        let start = self.snapshot();
        match p.marshal(&mut self.ctx) {
            Ok(()) => {
                P::sig_str(&mut self.sig);
                let total = self.ctx.buf.len();
                proof {
                    p.lemma_param_type();
                    if old(self).is_valid() {
                        lemma_push_keeps_valid(old(self).state(), old(self).order(), p.param());
                    }
                }
                Ok(())
            },
            Err(e) => {
                self.rollback(&start, Ghost(old(self).state()));
                Err(e)
            },
        }
    }

    /// Pushes two values, all of them or none.
    pub fn push_param2<
        A: Marshal,
        B: Marshal,
    >(&mut self, p1: A, p2: B) -> (r: Result<(), MarshalError>)
        ensures
            final(self).order() == old(self).order(),
            old(self).is_valid() ==> final(self).is_valid(),
            push_post(
                old(self).state(),
                final(self).state(),
                then_push(
                    push_spec(old(self).state(), old(self).order(), p1.param(), A::sig_spec()),
                    old(self).order(),
                    p2.param(),
                    B::sig_spec(),
                ),
                r,
            ),
    {
        let ghost before = self.state();
        let start = self.snapshot();
        self.push_param(p1)?;
        let ghost entered = self.state();
        match self.push_param(p2) {
            Ok(()) => {
                proof {
                    crate::wire::marshal::lemma_extends_trans(
                        before.wire,
                        entered.wire,
                        self.state().wire,
                    );
                }
            },
            Err(e) => {
                self.rollback(&start, Ghost(before));
                return Err(e);
            },
        }
        Ok(())
    }

    /// Pushes three values, all of them or none.
    pub fn push_param3<
        A: Marshal,
        B: Marshal,
        C: Marshal,
    >(&mut self, p1: A, p2: B, p3: C) -> (r: Result<(), MarshalError>)
        ensures
            final(self).order() == old(self).order(),
            old(self).is_valid() ==> final(self).is_valid(),
            push_post(
                old(self).state(),
                final(self).state(),
                then_push(
                    then_push(
                        push_spec(old(self).state(), old(self).order(), p1.param(), A::sig_spec()),
                        old(self).order(),
                        p2.param(),
                        B::sig_spec(),
                    ),
                    old(self).order(),
                    p3.param(),
                    C::sig_spec(),
                ),
                r,
            ),
    {
        let ghost before = self.state();
        let start = self.snapshot();
        self.push_param(p1)?;
        let ghost entered = self.state();
        match self.push_param(p2) {
            Ok(()) => {
                proof {
                    crate::wire::marshal::lemma_extends_trans(
                        before.wire,
                        entered.wire,
                        self.state().wire,
                    );
                }
            },
            Err(e) => {
                self.rollback(&start, Ghost(before));
                return Err(e);
            },
        }
        let ghost entered = self.state();
        match self.push_param(p3) {
            Ok(()) => {
                proof {
                    crate::wire::marshal::lemma_extends_trans(
                        before.wire,
                        entered.wire,
                        self.state().wire,
                    );
                }
            },
            Err(e) => {
                self.rollback(&start, Ghost(before));
                return Err(e);
            },
        }
        Ok(())
    }

    /// Pushes four values, all of them or none.
    pub fn push_param4<
        A: Marshal,
        B: Marshal,
        C: Marshal,
        D: Marshal,
    >(&mut self, p1: A, p2: B, p3: C, p4: D) -> (r: Result<(), MarshalError>)
        ensures
            final(self).order() == old(self).order(),
            old(self).is_valid() ==> final(self).is_valid(),
            push_post(
                old(self).state(),
                final(self).state(),
                then_push(
                    then_push(
                        then_push(
                            push_spec(old(self).state(), old(self).order(), p1.param(), A::sig_spec()),
                            old(self).order(),
                            p2.param(),
                            B::sig_spec(),
                        ),
                        old(self).order(),
                        p3.param(),
                        C::sig_spec(),
                    ),
                    old(self).order(),
                    p4.param(),
                    D::sig_spec(),
                ),
                r,
            ),
    {
        let ghost before = self.state();
        let start = self.snapshot();
        self.push_param(p1)?;
        let ghost entered = self.state();
        match self.push_param(p2) {
            Ok(()) => {
                proof {
                    crate::wire::marshal::lemma_extends_trans(
                        before.wire,
                        entered.wire,
                        self.state().wire,
                    );
                }
            },
            Err(e) => {
                self.rollback(&start, Ghost(before));
                return Err(e);
            },
        }
        let ghost entered = self.state();
        match self.push_param(p3) {
            Ok(()) => {
                proof {
                    crate::wire::marshal::lemma_extends_trans(
                        before.wire,
                        entered.wire,
                        self.state().wire,
                    );
                }
            },
            Err(e) => {
                self.rollback(&start, Ghost(before));
                return Err(e);
            },
        }
        let ghost entered = self.state();
        match self.push_param(p4) {
            Ok(()) => {
                proof {
                    crate::wire::marshal::lemma_extends_trans(
                        before.wire,
                        entered.wire,
                        self.state().wire,
                    );
                }
            },
            Err(e) => {
                self.rollback(&start, Ghost(before));
                return Err(e);
            },
        }
        Ok(())
    }

    /// Pushes five values, all of them or none.
    pub fn push_param5<
        A: Marshal,
        B: Marshal,
        C: Marshal,
        D: Marshal,
        E: Marshal,
    >(&mut self, p1: A, p2: B, p3: C, p4: D, p5: E) -> (r: Result<(), MarshalError>)
        ensures
            final(self).order() == old(self).order(),
            old(self).is_valid() ==> final(self).is_valid(),
            push_post(
                old(self).state(),
                final(self).state(),
                then_push(
                    then_push(
                        then_push(
                            then_push(
                                push_spec(old(self).state(), old(self).order(), p1.param(), A::sig_spec()),
                                old(self).order(),
                                p2.param(),
                                B::sig_spec(),
                            ),
                            old(self).order(),
                            p3.param(),
                            C::sig_spec(),
                        ),
                        old(self).order(),
                        p4.param(),
                        D::sig_spec(),
                    ),
                    old(self).order(),
                    p5.param(),
                    E::sig_spec(),
                ),
                r,
            ),
    {
        let ghost before = self.state();
        let start = self.snapshot();
        self.push_param(p1)?;
        let ghost entered = self.state();
        match self.push_param(p2) {
            Ok(()) => {
                proof {
                    crate::wire::marshal::lemma_extends_trans(
                        before.wire,
                        entered.wire,
                        self.state().wire,
                    );
                }
            },
            Err(e) => {
                self.rollback(&start, Ghost(before));
                return Err(e);
            },
        }
        let ghost entered = self.state();
        match self.push_param(p3) {
            Ok(()) => {
                proof {
                    crate::wire::marshal::lemma_extends_trans(
                        before.wire,
                        entered.wire,
                        self.state().wire,
                    );
                }
            },
            Err(e) => {
                self.rollback(&start, Ghost(before));
                return Err(e);
            },
        }
        let ghost entered = self.state();
        match self.push_param(p4) {
            Ok(()) => {
                proof {
                    crate::wire::marshal::lemma_extends_trans(
                        before.wire,
                        entered.wire,
                        self.state().wire,
                    );
                }
            },
            Err(e) => {
                self.rollback(&start, Ghost(before));
                return Err(e);
            },
        }
        let ghost entered = self.state();
        match self.push_param(p5) {
            Ok(()) => {
                proof {
                    crate::wire::marshal::lemma_extends_trans(
                        before.wire,
                        entered.wire,
                        self.state().wire,
                    );
                }
            },
            Err(e) => {
                self.rollback(&start, Ghost(before));
                return Err(e);
            },
        }
        Ok(())
    }

    /// Pushes values of one type, all of them or none.
    #[verifier::loop_isolation(false)]
    pub fn push_params<P: Marshal>(&mut self, params: &[P]) -> (r: Result<(), MarshalError>)
        ensures
            final(self).order() == old(self).order(),
            old(self).is_valid() ==> final(self).is_valid(),
            push_post(
                old(self).state(),
                final(self).state(),
                push_seq_spec(
                    old(self).state(),
                    old(self).order(),
                    crate::wire::marshal::traits::container::elems_params(params@),
                    params@.len(),
                ),
                r,
            ),
    {
        let ghost before = self.state();
        let ghost bo = self.order();
        let ghost vs = crate::wire::marshal::traits::container::elems_params(params@);
        let start = self.snapshot();
        let mut i: usize = 0;
        while i < params.len()
            invariant
                i <= params.len(),
                self.order() == bo,
                vs == crate::wire::marshal::traits::container::elems_params(params@),
                push_seq_spec(before, bo, vs, i as nat) == Ok::<BodyState, MarshalError>(
                    self.state(),
                ),
                self.state().wire.extends(before.wire),
                before.sig.is_prefix_of(self.state().sig),
                validate_body_spec(before, bo) is Ok ==> self.is_valid(),
                start.sig_len == before.sig.len(),
                start.buf_len == before.wire.buf.len(),
                start.fds_len == before.wire.fds.len(),
            decreases params.len() - i,
        {
            let ghost entered = self.state();
            proof {
                params@[i as int].lemma_param_type();
            }
            match self.push_param(&params[i]) {
                Ok(()) => {
                    proof {
                        crate::wire::marshal::lemma_extends_trans(
                            before.wire,
                            entered.wire,
                            self.state().wire,
                        );
                    }
                },
                Err(e) => {
                    proof {
                        lemma_push_seq_err(before, bo, vs, (i + 1) as nat, vs.len());
                    }
                    self.rollback(&start, Ghost(before));
                    return Err(e);
                },
            }
            i += 1;
        }
        Ok(())
    }

    /// Pushes a value as a variant: the signature of the body gets a `v`,
    /// and the signature of the value goes into the payload, before the value.
    pub fn push_variant<P: Marshal>(&mut self, p: P) -> (r: Result<(), MarshalError>)
        ensures
            final(self).order() == old(self).order(),
            old(self).is_valid() ==> final(self).is_valid(),
            push_post(
                old(self).state(),
                final(self).state(),
                push_spec(
                    old(self).state(),
                    old(self).order(),
                    SpecParam::Variant(P::sig_spec(), Box::new(p.param())),
                    SpecType::Variant,
                ),
                r,
            ),
    {
        self.check_type(&signature::Type::Container(signature::Container::Variant))?;
        let start = self.snapshot();
        match p.marshal_as_variant(&mut self.ctx) {
            Ok(()) => {
                proof {
                    reveal_strlit("v");
                }
                self.sig.push_static("v");
                assert(self.sig@ =~= old(self).state().sig + SpecType::Variant.text());
                let total = self.ctx.buf.len();
                proof {
                    if old(self).is_valid() {
                        lemma_push_keeps_valid(
                            old(self).state(),
                            old(self).order(),
                            SpecParam::Variant(P::sig_spec(), Box::new(p.param())),
                        );
                    }
                }
                Ok(())
            },
            Err(e) => {
                self.rollback(&start, Ghost(old(self).state()));
                Err(e)
            },
        }
    }
}

/// Writes `p` as the content of a variant onto a payload and its list of
/// file descriptors: the signature of `p`, then `p` itself. This is for
/// variants inside other values; for a variant as a value of a body of
/// its own there is `MarshalledMessageBody::push_variant`.
pub fn marshal_as_variant<P: Marshal>(
    p: P,
    byteorder: ByteOrder,
    buf: &mut Vec<u8>,
    fds: &mut Vec<UnixFd>,
) -> (r: Result<(), MarshalError>)
    ensures
        marshal_post(
            Wire { buf: old(buf)@, fds: old(fds)@ },
            Wire { buf: final(buf)@, fds: final(fds)@ },
            marshal_spec(
                SpecParam::Variant(P::sig_spec(), Box::new(p.param())),
                byteorder,
                Wire { buf: old(buf)@, fds: old(fds)@ },
            ),
            r,
        ),
{
    let mut ctx = MarshalContext::new(byteorder);
    core::mem::swap(&mut ctx.buf, buf);
    core::mem::swap(&mut ctx.fds, fds);
    assert(ctx@ =~= (Wire { buf: old(buf)@, fds: old(fds)@ }));
    let r = p.marshal_as_variant(&mut ctx);
    core::mem::swap(&mut ctx.buf, buf);
    core::mem::swap(&mut ctx.fds, fds);
    r
}

/// The body after one more push, if the pushes before it went well.
pub open spec fn then_push(
    pushed: Result<BodyState, MarshalError>,
    bo: ByteOrder,
    p: SpecParam,
    t: SpecType,
) -> Result<BodyState, MarshalError> {
    match pushed {
        Err(e) => Err(e),
        Ok(st) => push_spec(st, bo, p, t),
    }
}

/// An error among the first pushes is the error of all of them.
pub proof fn lemma_push_seq_err(st: BodyState, bo: ByteOrder, ps: Seq<SpecParam>, i: nat, n: nat)
    requires
        i <= n <= ps.len(),
        push_seq_spec(st, bo, ps, i) is Err,
    ensures
        push_seq_spec(st, bo, ps, n) == push_seq_spec(st, bo, ps, i),
    decreases n - i,
{
    if i < n {
        lemma_push_seq_err(st, bo, ps, i, (n - 1) as nat);
    }
}

/// What checking a body gives: nothing to say of an empty body; else the
/// signature must be one, its values must follow one another in the
/// payload without a fault, and they must fill it.
pub open spec fn validate_body_spec(st: BodyState, bo: ByteOrder) -> Result<(), UnmarshalError> {
    if st.sig.len() == 0 && st.wire.buf.len() == 0 {
        Ok(())
    } else {
        match parse_description_spec(st.sig) {
            Err(_) => Err(UnmarshalError::InvalidSignature),
            Ok(ts) => match validate_fields(bo, 0, st.wire.buf, ts, 0) {
                Err((_, e)) => Err(e),
                Ok(used) => if used == st.wire.buf.len() {
                    Ok(())
                } else {
                    Err(UnmarshalError::NotAllBytesUsed)
                },
            },
        }
    }
}

/// Where a parser stands: the place of the next value in the payload and
/// the place of its type in the signature.
pub struct ParserState {
    pub buf_idx: int,
    pub sig_idx: int,
}

/// What getting a value of type `t` gives where the parser stands at
/// `at`: the value and the place behind it. There must be a next type in
/// the signature, it must begin with the signature of `t`, and the value
/// must be readable.
pub open spec fn get_spec(st: BodyState, bo: ByteOrder, at: ParserState, t: SpecType) -> Result<
    (ParserState, SpecParam),
    UnmarshalError,
> {
    match token_end(st.sig, at.sig_idx) {
        None => Err(UnmarshalError::EndOfMessage),
        Some(end) => if !t.text().is_prefix_of(st.sig.subrange(at.sig_idx, end)) {
            Err(UnmarshalError::WrongSignature)
        } else {
            match unmarshal_spec(t, bo, st.wire.buf, at.buf_idx, st.wire.fds) {
                Err(e) => Err(e),
                Ok((n, v)) => Ok((ParserState { buf_idx: at.buf_idx + n, sig_idx: end }, v)),
            }
        },
    }
}

/// What getting the next value gives, whatever its type, where the parser
/// stands at `at`: the value and the place behind it.
pub open spec fn get_param_spec(st: BodyState, bo: ByteOrder, at: ParserState) -> Result<
    (ParserState, SpecParam),
    UnmarshalError,
> {
    match signature::parse_one(st.sig, at.sig_idx, 0) {
        Ok((t, end)) => if token_end(st.sig, at.sig_idx) is None {
            Err(UnmarshalError::EndOfMessage)
        } else {
            match unmarshal_spec(t, bo, st.wire.buf, at.buf_idx, st.wire.fds) {
                Err(e) => Err(e),
                Ok((n, v)) => Ok((ParserState { buf_idx: at.buf_idx + n, sig_idx: end }, v)),
            }
        },
        Err(_) => Err(UnmarshalError::EndOfMessage),
    }
}

/// What getting values of the first `n` types of `ts` one after the other
/// gives: the values and the place behind them.
pub open spec fn get_all_spec(
    st: BodyState,
    bo: ByteOrder,
    at: ParserState,
    ts: Seq<SpecType>,
    n: nat,
) -> Result<(ParserState, Seq<SpecParam>), UnmarshalError>
    decreases n,
{
    if n == 0 || n > ts.len() {
        Ok((at, Seq::empty()))
    } else {
        match get_all_spec(st, bo, at, ts, (n - 1) as nat) {
            Err(e) => Err(e),
            Ok((mid, vs)) => match get_spec(st, bo, mid, ts[n - 1]) {
                Err(e) => Err(e),
                Ok((end, v)) => Ok((end, vs.push(v))),
            },
        }
    }
}

/// What getting values of the types `ts` together gives: there must be
/// as many values left, and each must be got in its turn.
pub open spec fn get_many_spec(st: BodyState, bo: ByteOrder, at: ParserState, ts: Seq<SpecType>) -> Result<
    (ParserState, Seq<SpecParam>),
    UnmarshalError,
> {
    if tokens_left(st.sig, at.sig_idx) < ts.len() {
        Err(UnmarshalError::EndOfMessage)
    } else {
        get_all_spec(st, bo, at, ts, ts.len())
    }
}

/// Getting one value more: the values so far, then that value.
pub proof fn lemma_get_all_step(
    st: BodyState,
    bo: ByteOrder,
    at: ParserState,
    ts: Seq<SpecType>,
    n: nat,
)
    requires
        n < ts.len(),
    ensures
        get_all_spec(st, bo, at, ts, 0) == Ok::<(ParserState, Seq<SpecParam>), UnmarshalError>(
            (at, Seq::empty()),
        ),
        get_all_spec(st, bo, at, ts, n + 1) == match get_all_spec(st, bo, at, ts, n) {
            Err(e) => Err(e),
            Ok((mid, vs)) => match get_spec(st, bo, mid, ts[n as int]) {
                Err(e) => Err(e),
                Ok((end, v)) => Ok((end, vs.push(v))),
            },
        },
{
}

/// A value among the first that cannot be got fails all of them.
pub proof fn lemma_get_all_err(
    st: BodyState,
    bo: ByteOrder,
    at: ParserState,
    ts: Seq<SpecType>,
    i: nat,
    n: nat,
)
    requires
        i <= n <= ts.len(),
        get_all_spec(st, bo, at, ts, i) is Err,
    ensures
        get_all_spec(st, bo, at, ts, n) == get_all_spec(st, bo, at, ts, i),
    decreases n - i,
{
    if i < n {
        lemma_get_all_err(st, bo, at, ts, i, (n - 1) as nat);
    }
}

/// Reads the values of a body one by one. A value that cannot be read
/// leaves the parser where it was, and another type can be tried.
#[derive(Debug)]
pub struct MessageBodyParser<'body> {
    buf_idx: usize,
    sig_idx: usize,
    body: &'body MarshalledMessageBody,
}

impl<'body> MessageBodyParser<'body> {
    /// The parser never stands behind the end of the payload.
    #[verifier::type_invariant]
    spec fn inv(self) -> bool {
        self.buf_idx <= self.body.ctx.buf@.len()
    }

    /// Where the parser stands.
    pub closed spec fn at(&self) -> ParserState {
        ParserState { buf_idx: self.buf_idx as int, sig_idx: self.sig_idx as int }
    }

    /// The body that is read.
    pub closed spec fn body(&self) -> &MarshalledMessageBody {
        self.body
    }

    /// A parser that stands before the first value of `body`.
    pub fn new(body: &'body MarshalledMessageBody) -> (r: Self)
        ensures
            r.at() == (ParserState { buf_idx: 0, sig_idx: 0 }),
            r.body() == body,
    {
        Self { buf_idx: 0, sig_idx: 0, body }
    }

    fn sig_iter(&self) -> (r: SignatureIter<'body>)
        ensures
            r.text() == self.body().state().sig,
            r.position() == self.at().sig_idx,
    {
        SignatureIter::new_at_idx(self.body.sig.as_str(), self.sig_idx)
    }

    /// The signature of the next value, if there is one.
    pub fn get_next_sig(&self) -> (r: Option<&'body str>)
        ensures
            match token_end(self.body().state().sig, self.at().sig_idx) {
                Some(end) => r matches Some(t) && t@ == self.body().state().sig.subrange(
                    self.at().sig_idx,
                    end,
                ),
                None => r is None,
            },
    {
        let mut iter = self.sig_iter();
        iter.next()
    }

    /// How many values are left.
    pub fn sigs_left(&self) -> (n: usize)
        ensures
            n == tokens_left(self.body().state().sig, self.at().sig_idx),
    {
        self.sig_iter().count()
    }

    fn ctx(&self) -> (r: UnmarshalContext<'body, 'body>)
        ensures
            r.wf(),
            r.byteorder == self.body().order(),
            r.buf@ == self.body().state().wire.buf,
            r.fds@ == self.body().state().wire.fds,
            r.offset == self.at().buf_idx,
    {
        proof {
            use_type_invariant(self);
        }
        UnmarshalContext {
            byteorder: self.body.ctx.byteorder,
            buf: self.body.ctx.buf.as_slice(),
            offset: self.buf_idx,
            fds: self.body.ctx.fds.as_slice(),
        }
    }

    /// Gets the next value as a `T`. Where none is left, where the next
    /// value has another type, or where it cannot be read, the parser
    /// stays where it is.
    pub fn get<T: Unmarshal<'body, 'body>>(&mut self) -> (r: Result<T, UnmarshalError>)
        ensures
            final(self).body() == old(self).body(),
            match get_spec(
                old(self).body().state(),
                old(self).body().order(),
                old(self).at(),
                T::sig_spec(),
            ) {
                Ok((at, v)) => r matches Ok(x) && x.param() == v && final(self).at() == at,
                Err(e) => r matches Err(f) && f == e && final(self).at() == old(self).at(),
            },
    {
        let mut iter = self.sig_iter();
        let expected_sig = match iter.next() {
            Some(s) => s,
            None => {
                return Err(UnmarshalError::EndOfMessage);
            },
        };
        if !T::has_sig(expected_sig) {
            return Err(UnmarshalError::WrongSignature);
        }
        let ctx = self.ctx();
        let total = ctx.buf.len();
        match T::unmarshal(&ctx) {
            Ok((bytes, res)) => {
                self.buf_idx = self.buf_idx + bytes;
                self.sig_idx = iter.pos();
                Ok(res)
            },
            Err(e) => Err(e),
        }
    }

    /// Gets the next value, whatever its type. Where none is left or
    /// where it cannot be read, the parser stays where it is.
    pub fn get_param(&mut self) -> (r: Result<params::Param, UnmarshalError>)
        ensures
            final(self).body() == old(self).body(),
            match get_param_spec(
                old(self).body().state(),
                old(self).body().order(),
                old(self).at(),
            ) {
                Ok((at, v)) => r matches Ok(x) && x@ == v && final(self).at() == at,
                Err(e) => r matches Err(f) && f == e && final(self).at() == old(self).at(),
            },
    {
        let mut iter = self.sig_iter();
        let sig = match iter.next_type() {
            Some(t) => t,
            None => {
                return Err(UnmarshalError::EndOfMessage);
            },
        };
        let ctx = self.ctx();
        let total = ctx.buf.len();
        match crate::wire::unmarshal::container::unmarshal_with_sig(&sig, &ctx) {
            Ok((bytes, res)) => {
                self.buf_idx = self.buf_idx + bytes;
                self.sig_idx = iter.pos();
                Ok(res)
            },
            Err(e) => Err(e),
        }
    }

    /// Gets the next two values, all of them or none: where fewer are left,
    /// where one has another type, or where one cannot be read, the parser
    /// stays where it is.
    pub fn get2<
        T1: Unmarshal<'body, 'body>,
        T2: Unmarshal<'body, 'body>,
    >(&mut self) -> (r: Result<(T1, T2), UnmarshalError>)
        ensures
            final(self).body() == old(self).body(),
            match get_many_spec(
                old(self).body().state(),
                old(self).body().order(),
                old(self).at(),
                seq![T1::sig_spec(), T2::sig_spec()],
            ) {
                Ok((at, vs)) => r matches Ok(x) && seq![x.0.param(), x.1.param()]
                    == vs && final(self).at() == at,
                Err(e) => r matches Err(f) && f == e && final(self).at() == old(self).at(),
            },
    {
        let ghost st = self.body().state();
        let ghost bo = self.body().order();
        let ghost start = self.at();
        let ghost types = seq![T1::sig_spec(), T2::sig_spec()];
        proof {
            use_type_invariant(&*self);
        }
        if 2 > self.sigs_left() {
            return Err(UnmarshalError::EndOfMessage);
        }
        let start_sig_idx = self.sig_idx;
        let start_buf_idx = self.buf_idx;
        proof {
            lemma_get_all_step(st, bo, start, types, 0);
        }
        let v1 = match self.get::<T1>() {
            Ok(v) => v,
            Err(e) => {
                proof {
                    lemma_get_all_err(st, bo, start, types, 1, 2);
                }
                self.restore(start_buf_idx, start_sig_idx);
                return Err(e);
            },
        };
        proof {
            lemma_get_all_step(st, bo, start, types, 1);
        }
        let v2 = match self.get::<T2>() {
            Ok(v) => v,
            Err(e) => {
                proof {
                    lemma_get_all_err(st, bo, start, types, 2, 2);
                }
                self.restore(start_buf_idx, start_sig_idx);
                return Err(e);
            },
        };
        assert(
            Seq::<SpecParam>::empty().push(v1.param()).push(v2.param())
            =~= seq![v1.param(), v2.param()]
        );
        Ok((v1, v2))
    }

    /// Gets the next three values, all of them or none: where fewer are left,
    /// where one has another type, or where one cannot be read, the parser
    /// stays where it is.
    pub fn get3<
        T1: Unmarshal<'body, 'body>,
        T2: Unmarshal<'body, 'body>,
        T3: Unmarshal<'body, 'body>,
    >(&mut self) -> (r: Result<(T1, T2, T3), UnmarshalError>)
        ensures
            final(self).body() == old(self).body(),
            match get_many_spec(
                old(self).body().state(),
                old(self).body().order(),
                old(self).at(),
                seq![T1::sig_spec(), T2::sig_spec(), T3::sig_spec()],
            ) {
                Ok((at, vs)) => r matches Ok(x) && seq![x.0.param(), x.1.param(), x.2.param()]
                    == vs && final(self).at() == at,
                Err(e) => r matches Err(f) && f == e && final(self).at() == old(self).at(),
            },
    {
        let ghost st = self.body().state();
        let ghost bo = self.body().order();
        let ghost start = self.at();
        let ghost types = seq![T1::sig_spec(), T2::sig_spec(), T3::sig_spec()];
        proof {
            use_type_invariant(&*self);
        }
        if 3 > self.sigs_left() {
            return Err(UnmarshalError::EndOfMessage);
        }
        let start_sig_idx = self.sig_idx;
        let start_buf_idx = self.buf_idx;
        proof {
            lemma_get_all_step(st, bo, start, types, 0);
        }
        let v1 = match self.get::<T1>() {
            Ok(v) => v,
            Err(e) => {
                proof {
                    lemma_get_all_err(st, bo, start, types, 1, 3);
                }
                self.restore(start_buf_idx, start_sig_idx);
                return Err(e);
            },
        };
        proof {
            lemma_get_all_step(st, bo, start, types, 1);
        }
        let v2 = match self.get::<T2>() {
            Ok(v) => v,
            Err(e) => {
                proof {
                    lemma_get_all_err(st, bo, start, types, 2, 3);
                }
                self.restore(start_buf_idx, start_sig_idx);
                return Err(e);
            },
        };
        proof {
            lemma_get_all_step(st, bo, start, types, 2);
        }
        let v3 = match self.get::<T3>() {
            Ok(v) => v,
            Err(e) => {
                proof {
                    lemma_get_all_err(st, bo, start, types, 3, 3);
                }
                self.restore(start_buf_idx, start_sig_idx);
                return Err(e);
            },
        };
        assert(
            Seq::<SpecParam>::empty().push(v1.param()).push(v2.param()).push(v3.param())
            =~= seq![v1.param(), v2.param(), v3.param()]
        );
        Ok((v1, v2, v3))
    }

    /// Gets the next four values, all of them or none: where fewer are left,
    /// where one has another type, or where one cannot be read, the parser
    /// stays where it is.
    pub fn get4<
        T1: Unmarshal<'body, 'body>,
        T2: Unmarshal<'body, 'body>,
        T3: Unmarshal<'body, 'body>,
        T4: Unmarshal<'body, 'body>,
    >(&mut self) -> (r: Result<(T1, T2, T3, T4), UnmarshalError>)
        ensures
            final(self).body() == old(self).body(),
            match get_many_spec(
                old(self).body().state(),
                old(self).body().order(),
                old(self).at(),
                seq![T1::sig_spec(), T2::sig_spec(), T3::sig_spec(), T4::sig_spec()],
            ) {
                Ok((at, vs)) => r matches Ok(x) && seq![x.0.param(), x.1.param(), x.2.param(), x.3.param()]
                    == vs && final(self).at() == at,
                Err(e) => r matches Err(f) && f == e && final(self).at() == old(self).at(),
            },
    {
        let ghost st = self.body().state();
        let ghost bo = self.body().order();
        let ghost start = self.at();
        let ghost types = seq![T1::sig_spec(), T2::sig_spec(), T3::sig_spec(), T4::sig_spec()];
        proof {
            use_type_invariant(&*self);
        }
        if 4 > self.sigs_left() {
            return Err(UnmarshalError::EndOfMessage);
        }
        let start_sig_idx = self.sig_idx;
        let start_buf_idx = self.buf_idx;
        proof {
            lemma_get_all_step(st, bo, start, types, 0);
        }
        let v1 = match self.get::<T1>() {
            Ok(v) => v,
            Err(e) => {
                proof {
                    lemma_get_all_err(st, bo, start, types, 1, 4);
                }
                self.restore(start_buf_idx, start_sig_idx);
                return Err(e);
            },
        };
        proof {
            lemma_get_all_step(st, bo, start, types, 1);
        }
        let v2 = match self.get::<T2>() {
            Ok(v) => v,
            Err(e) => {
                proof {
                    lemma_get_all_err(st, bo, start, types, 2, 4);
                }
                self.restore(start_buf_idx, start_sig_idx);
                return Err(e);
            },
        };
        proof {
            lemma_get_all_step(st, bo, start, types, 2);
        }
        let v3 = match self.get::<T3>() {
            Ok(v) => v,
            Err(e) => {
                proof {
                    lemma_get_all_err(st, bo, start, types, 3, 4);
                }
                self.restore(start_buf_idx, start_sig_idx);
                return Err(e);
            },
        };
        proof {
            lemma_get_all_step(st, bo, start, types, 3);
        }
        let v4 = match self.get::<T4>() {
            Ok(v) => v,
            Err(e) => {
                proof {
                    lemma_get_all_err(st, bo, start, types, 4, 4);
                }
                self.restore(start_buf_idx, start_sig_idx);
                return Err(e);
            },
        };
        assert(
            Seq::<SpecParam>::empty()
                .push(v1.param())
                .push(v2.param())
                .push(v3.param())
                .push(v4.param())
            =~= seq![v1.param(), v2.param(), v3.param(), v4.param()]
        );
        Ok((v1, v2, v3, v4))
    }

    /// Gets the next five values, all of them or none: where fewer are left,
    /// where one has another type, or where one cannot be read, the parser
    /// stays where it is.
    pub fn get5<
        T1: Unmarshal<'body, 'body>,
        T2: Unmarshal<'body, 'body>,
        T3: Unmarshal<'body, 'body>,
        T4: Unmarshal<'body, 'body>,
        T5: Unmarshal<'body, 'body>,
    >(&mut self) -> (r: Result<(T1, T2, T3, T4, T5), UnmarshalError>)
        ensures
            final(self).body() == old(self).body(),
            match get_many_spec(
                old(self).body().state(),
                old(self).body().order(),
                old(self).at(),
                seq![T1::sig_spec(), T2::sig_spec(), T3::sig_spec(), T4::sig_spec(), T5::sig_spec()],
            ) {
                Ok((at, vs)) => r matches Ok(x) && seq![x.0.param(), x.1.param(), x.2.param(), x.3.param(), x.4.param()]
                    == vs && final(self).at() == at,
                Err(e) => r matches Err(f) && f == e && final(self).at() == old(self).at(),
            },
    {
        let ghost st = self.body().state();
        let ghost bo = self.body().order();
        let ghost start = self.at();
        let ghost types = seq![
            T1::sig_spec(),
            T2::sig_spec(),
            T3::sig_spec(),
            T4::sig_spec(),
            T5::sig_spec(),
        ];
        proof {
            use_type_invariant(&*self);
        }
        if 5 > self.sigs_left() {
            return Err(UnmarshalError::EndOfMessage);
        }
        let start_sig_idx = self.sig_idx;
        let start_buf_idx = self.buf_idx;
        proof {
            lemma_get_all_step(st, bo, start, types, 0);
        }
        let v1 = match self.get::<T1>() {
            Ok(v) => v,
            Err(e) => {
                proof {
                    lemma_get_all_err(st, bo, start, types, 1, 5);
                }
                self.restore(start_buf_idx, start_sig_idx);
                return Err(e);
            },
        };
        proof {
            lemma_get_all_step(st, bo, start, types, 1);
        }
        let v2 = match self.get::<T2>() {
            Ok(v) => v,
            Err(e) => {
                proof {
                    lemma_get_all_err(st, bo, start, types, 2, 5);
                }
                self.restore(start_buf_idx, start_sig_idx);
                return Err(e);
            },
        };
        proof {
            lemma_get_all_step(st, bo, start, types, 2);
        }
        let v3 = match self.get::<T3>() {
            Ok(v) => v,
            Err(e) => {
                proof {
                    lemma_get_all_err(st, bo, start, types, 3, 5);
                }
                self.restore(start_buf_idx, start_sig_idx);
                return Err(e);
            },
        };
        proof {
            lemma_get_all_step(st, bo, start, types, 3);
        }
        let v4 = match self.get::<T4>() {
            Ok(v) => v,
            Err(e) => {
                proof {
                    lemma_get_all_err(st, bo, start, types, 4, 5);
                }
                self.restore(start_buf_idx, start_sig_idx);
                return Err(e);
            },
        };
        proof {
            lemma_get_all_step(st, bo, start, types, 4);
        }
        let v5 = match self.get::<T5>() {
            Ok(v) => v,
            Err(e) => {
                proof {
                    lemma_get_all_err(st, bo, start, types, 5, 5);
                }
                self.restore(start_buf_idx, start_sig_idx);
                return Err(e);
            },
        };
        assert(
            Seq::<SpecParam>::empty()
                .push(v1.param())
                .push(v2.param())
                .push(v3.param())
                .push(v4.param())
                .push(v5.param())
            =~= seq![v1.param(), v2.param(), v3.param(), v4.param(), v5.param()]
        );
        Ok((v1, v2, v3, v4, v5))
    }

    /// Puts the parser back to where it stood.
    fn restore(&mut self, buf_idx: usize, sig_idx: usize)
        requires
            buf_idx <= old(self).body().state().wire.buf.len(),
        ensures
            final(self).body() == old(self).body(),
            final(self).at() == (ParserState { buf_idx: buf_idx as int, sig_idx: sig_idx as int }),
    {
        self.buf_idx = buf_idx;
        self.sig_idx = sig_idx;
    }
}

/// What a body holds after values were pushed onto an empty body: the
/// values written one after the other, under the signature of their types.
pub proof fn lemma_pushed_state(bo: ByteOrder, ps: Seq<SpecParam>, n: nat)
    requires
        n <= ps.len(),
        push_seq_spec(BodyState::empty(), bo, ps, n) is Ok,
    ensures
        ({
            let st = push_seq_spec(BodyState::empty(), bo, ps, n)->Ok_0;
            &&& crate::wire::marshal::marshal_seq(ps, n, bo, BodyState::empty().wire) == Ok::<
                Wire,
                MarshalError,
            >(st.wire)
            &&& parse_description_spec(st.sig) == Ok::<Seq<SpecType>, signature::Error>(
                params::params_types(ps).take(n as int),
            )
        }),
    decreases n,
{
    let empty = BodyState::empty();
    let types = params::params_types(ps);
    crate::wire::marshal::lemma_marshal_none(bo, empty.wire);
    params::lemma_params_types(ps);
    if n == 0 {
        assert(types.take(0) =~= Seq::<SpecType>::empty());
        assert(empty.sig =~= Seq::<char>::empty());
    } else {
        let k = (n - 1) as nat;
        lemma_pushed_state(bo, ps, k);
        let before = push_seq_spec(empty, bo, ps, k)->Ok_0;
        let t = ps[k as int].ty();
        crate::wire::marshal::lemma_marshal_seq_step(ps, k, bo, empty.wire);
        signature::lemma_parse_push(before.sig, types.take(k as int), t);
        assert(types.take(k as int).push(t) =~= types.take(n as int));
    }
}

/// A body that was built by pushes is valid, and what was pushed is what
/// is read: where the values `ps` were pushed onto an empty body, the
/// body passes `validate`, and reading all its values gives `ps`.
pub proof fn lemma_pushed_body(bo: ByteOrder, ps: Seq<SpecParam>)
    requires
        push_seq_spec(BodyState::empty(), bo, ps, ps.len()) matches Ok(st) && st.wire.buf.len()
            <= usize::MAX,
    ensures
        ({
            let st = push_seq_spec(BodyState::empty(), bo, ps, ps.len())->Ok_0;
            &&& validate_body_spec(st, bo) == Ok::<(), UnmarshalError>(())
            &&& body_values(st, bo) == Ok::<Seq<SpecParam>, UnmarshalError>(ps)
        }),
{
    let empty = BodyState::empty();
    let st = push_seq_spec(empty, bo, ps, ps.len())->Ok_0;
    let types = params::params_types(ps);
    let b = st.wire.buf;
    lemma_pushed_state(bo, ps, ps.len());
    params::lemma_params_types(ps);
    assert(types.take(ps.len() as int) =~= types);
    crate::wire::round_trip::lemma_fields_round_trip(ps, ps.len(), bo, empty.wire, b, st.wire.fds);
    crate::wire::unmarshal::lemma_unmarshal_fields_step(
        types,
        ps.len() as int,
        bo,
        b,
        b.len() as int,
        st.wire.fds,
    );
    assert(ps.take(ps.len() as int) + Seq::<SpecParam>::empty() =~= ps);
    crate::wire::round_trip::lemma_fields_read_valid(types, 0, bo, b, 0, st.wire.fds);
    signature::lemma_signature_round_trip(st.sig, types);
    if ps.len() > 0 {
        signature::lemma_types_text_first(types);
    } else {
        assert(ps =~= Seq::<SpecParam>::empty());
    }
}

impl Default for DynamicHeader {
    fn default() -> (r: DynamicHeader)
        ensures
            r.is_blank(),
    {
        DynamicHeader::new()
    }
}

impl Default for MarshalledMessageBody {
    fn default() -> (r: MarshalledMessageBody)
        ensures
            r.state() == BodyState::empty(),
    {
        MarshalledMessageBody::new()
    }
}

impl Default for MarshalledMessage {
    fn default() -> (r: MarshalledMessage)
        ensures
            r.is_fresh(),
    {
        MarshalledMessage::new()
    }
}

impl Default for MessageBuilder {
    fn default() -> (r: MessageBuilder)
        ensures
            r.msg().is_fresh(),
    {
        MessageBuilder::new()
    }
}

impl Clone for DynamicHeader {
    fn clone(&self) -> (r: DynamicHeader)
        ensures
            opt_text(r.interface) == opt_text(self.interface),
            opt_text(r.member) == opt_text(self.member),
            opt_text(r.object) == opt_text(self.object),
            opt_text(r.destination) == opt_text(self.destination),
            r.serial == self.serial,
            opt_text(r.sender) == opt_text(self.sender),
            opt_text(r.signature) == opt_text(self.signature),
            opt_text(r.error_name) == opt_text(self.error_name),
            r.response_serial == self.response_serial,
            r.num_fds == self.num_fds,
    {
        self.duplicate()
    }
}

/// Pushes that went well went well push by push.
pub proof fn lemma_push_seq_ok(st: BodyState, bo: ByteOrder, ps: Seq<SpecParam>, i: nat, n: nat)
    requires
        i <= n <= ps.len(),
        push_seq_spec(st, bo, ps, n) is Ok,
    ensures
        push_seq_spec(st, bo, ps, i) is Ok,
{
    if push_seq_spec(st, bo, ps, i) is Err {
        lemma_push_seq_err(st, bo, ps, i, n);
    }
}

/// The state of a body after the first `n` of the pushes of `ps` onto an
/// empty body.
pub open spec fn pushed(bo: ByteOrder, ps: Seq<SpecParam>, n: nat) -> BodyState {
    push_seq_spec(BodyState::empty(), bo, ps, n)->Ok_0
}

/// Where values were pushed onto an empty body, the type of each stands
/// in the signature where the signature ended before the value was pushed.
pub proof fn lemma_pushed_type_is_there(bo: ByteOrder, ps: Seq<SpecParam>, k: nat)
    requires
        k < ps.len(),
        push_seq_spec(BodyState::empty(), bo, ps, ps.len()) is Ok,
    ensures
        push_seq_spec(BodyState::empty(), bo, ps, k) is Ok,
        push_seq_spec(BodyState::empty(), bo, ps, k + 1) is Ok,
        pushed(bo, ps, k + 1).sig == pushed(bo, ps, k).sig + ps[k as int].ty().text(),
        token_end(pushed(bo, ps, ps.len()).sig, pushed(bo, ps, k).sig.len() as int) == Some(
            pushed(bo, ps, k + 1).sig.len() as int,
        ),
        ps[k as int].ty().text() == pushed(bo, ps, ps.len()).sig.subrange(
            pushed(bo, ps, k).sig.len() as int,
            pushed(bo, ps, k + 1).sig.len() as int,
        ),
{
    let empty = BodyState::empty();
    let st = pushed(bo, ps, ps.len());
    let before = pushed(bo, ps, k);
    let after = pushed(bo, ps, k + 1);
    let types = params::params_types(ps);
    let t = ps[k as int].ty();
    params::lemma_params_types(ps);
    lemma_push_seq_ok(empty, bo, ps, k, ps.len());
    lemma_push_seq_ok(empty, bo, ps, k + 1, ps.len());
    lemma_pushed_state(bo, ps, ps.len());
    lemma_pushed_state(bo, ps, k);
    lemma_pushed_state(bo, ps, k + 1);
    assert(types.take(ps.len() as int) =~= types);
    signature::lemma_signature_round_trip(st.sig, types);
    signature::lemma_signature_round_trip(before.sig, types.take(k as int));
    signature::lemma_signature_round_trip(after.sig, types.take(k + 1 as int));
    signature::lemma_parse_description_wf(after.sig);
    signature::lemma_types_wf_index(types.take(k + 1 as int), k as int);
    signature::lemma_types_text_chars(types);
    signature::lemma_types_text_take(types, k);
    signature::lemma_types_text_take(types, k + 1);
    let from = before.sig.len() as int;
    assert(after.sig == before.sig + t.text());
    assert(after.sig == st.sig.subrange(0, after.sig.len() as int));
    assert forall|i: int| 0 <= i < t.text().len() implies st.sig[from + i] == t.text()[i] by {
        assert(st.sig.subrange(0, after.sig.len() as int)[from + i] == st.sig[from + i]);
        assert((before.sig + t.text())[from + i] == t.text()[i]);
    }
    assert(st.sig.subrange(from, from + t.text().len()) =~= t.text());
    signature::lemma_parse_text(st.sig, from, 0, t);
}

/// Where values were pushed onto an empty body, each can be read from
/// where the payload ended before it was pushed.
pub proof fn lemma_pushed_value_is_there(bo: ByteOrder, ps: Seq<SpecParam>, k: nat)
    requires
        k < ps.len(),
        push_seq_spec(BodyState::empty(), bo, ps, ps.len()) matches Ok(st) && st.wire.buf.len()
            <= usize::MAX,
    ensures
        push_seq_spec(BodyState::empty(), bo, ps, k) is Ok,
        push_seq_spec(BodyState::empty(), bo, ps, k + 1) is Ok,
        unmarshal_spec(
            ps[k as int].ty(),
            bo,
            pushed(bo, ps, ps.len()).wire.buf,
            pushed(bo, ps, k).wire.buf.len() as int,
            pushed(bo, ps, ps.len()).wire.fds,
        ) == Ok::<(int, SpecParam), UnmarshalError>(
            (
                pushed(bo, ps, k + 1).wire.buf.len() - pushed(bo, ps, k).wire.buf.len(),
                ps[k as int],
            ),
        ),
{
    let empty = BodyState::empty();
    let st = pushed(bo, ps, ps.len());
    let before = pushed(bo, ps, k);
    let after = pushed(bo, ps, k + 1);
    lemma_push_seq_ok(empty, bo, ps, k, ps.len());
    lemma_push_seq_ok(empty, bo, ps, k + 1, ps.len());
    lemma_pushed_state(bo, ps, ps.len());
    lemma_pushed_state(bo, ps, k);
    lemma_pushed_state(bo, ps, k + 1);
    crate::wire::marshal::lemma_marshal_seq_step(ps, k, bo, empty.wire);
    crate::wire::round_trip::lemma_marshal_seq_mono(ps, k + 1, ps.len(), bo, empty.wire);
    crate::wire::round_trip::lemma_holds_less(
        st.wire.buf,
        st.wire,
        0,
        after.wire,
        before.wire.buf.len() as int,
    );
    crate::wire::round_trip::lemma_round_trip(
        ps[k as int],
        bo,
        before.wire,
        st.wire.buf,
        st.wire.fds,
    );
}

/// What was pushed is what is got: where the values `ps` were pushed
/// onto an empty body, a parser that gets values of their types one after
/// the other gets the first `n` of them as they were pushed, and then
/// stands behind them.
pub proof fn lemma_pushed_values_are_got(bo: ByteOrder, ps: Seq<SpecParam>, n: nat)
    requires
        n <= ps.len(),
        push_seq_spec(BodyState::empty(), bo, ps, ps.len()) matches Ok(st) && st.wire.buf.len()
            <= usize::MAX,
    ensures
        push_seq_spec(BodyState::empty(), bo, ps, n) is Ok,
        get_all_spec(
            pushed(bo, ps, ps.len()),
            bo,
            ParserState { buf_idx: 0, sig_idx: 0 },
            params::params_types(ps),
            n,
        ) == Ok::<(ParserState, Seq<SpecParam>), UnmarshalError>(
            (
                ParserState {
                    buf_idx: pushed(bo, ps, n).wire.buf.len() as int,
                    sig_idx: pushed(bo, ps, n).sig.len() as int,
                },
                ps.take(n as int),
            ),
        ),
    decreases n,
{
    let empty = BodyState::empty();
    let st = pushed(bo, ps, ps.len());
    let types = params::params_types(ps);
    let start = ParserState { buf_idx: 0, sig_idx: 0 };
    params::lemma_params_types(ps);
    lemma_push_seq_ok(empty, bo, ps, n, ps.len());
    if n == 0 {
        assert(ps.take(0) =~= Seq::<SpecParam>::empty());
    } else {
        let k = (n - 1) as nat;
        lemma_pushed_values_are_got(bo, ps, k);
        lemma_get_all_step(st, bo, start, types, k);
        lemma_pushed_type_is_there(bo, ps, k);
        lemma_pushed_value_is_there(bo, ps, k);
        let t = types[k as int];
        let from = pushed(bo, ps, k).sig.len() as int;
        let to = pushed(bo, ps, n).sig.len() as int;
        assert(t.text().is_prefix_of(st.sig.subrange(from, to)));
        assert(ps.take(k as int).push(ps[k as int]) =~= ps.take(n as int));
    }
}

/// A push keeps a valid body valid: where a body passes `validate` and a
/// value is pushed onto it, the body passes `validate` again.
pub proof fn lemma_push_keeps_valid(st: BodyState, bo: ByteOrder, p: SpecParam)
    requires
        validate_body_spec(st, bo) is Ok,
        push_spec(st, bo, p, p.ty()) matches Ok(after) && after.wire.buf.len() <= usize::MAX,
    ensures
        validate_body_spec(push_spec(st, bo, p, p.ty())->Ok_0, bo) == Ok::<(), UnmarshalError>(()),
{
    let after = push_spec(st, bo, p, p.ty())->Ok_0;
    let t = p.ty();
    if st.sig.len() == 0 {
        assert(parse_description_spec(st.sig) == Ok::<Seq<SpecType>, signature::Error>(
            Seq::empty(),
        ));
    }
    let ts = parse_description_spec(st.sig)->Ok_0;
    crate::wire::validate_raw::lemma_validate_steps(bo, 0, st.wire.buf);
    signature::lemma_parse_push(st.sig, ts, t);
    signature::lemma_text_first(t);
    crate::wire::round_trip::lemma_marshal_extends(p, bo, st.wire);
    crate::wire::round_trip::lemma_marshal_validates(p, bo, st.wire);
    crate::wire::validity::lemma_fields_with_one_more(
        ts,
        0,
        t,
        bo,
        st.wire.buf,
        after.wire.buf,
        0,
    );
}

} // verus!
