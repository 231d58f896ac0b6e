//! Construction, marshalling and parsing of D-Bus message bodies.
//!
//! Values are written into a byte buffer following the D-Bus alignment and
//! length-prefix rules, and read back under strict signature checking.
//!
//! - [`signature`]: the types of D-Bus as a tree, their text, and the
//!   parser between the two.
//! - [`params`]: values whose type is known only at run time.
//! - [`wire`]: the wire format. What is written and what is read are
//!   functions of the value and of the bytes; the writers, the readers and
//!   the validator are proved to compute them, and `wire::round_trip` and
//!   `wire::validity` prove that they fit together.
//! - [`message_builder`]: messages, the body that carries their values,
//!   and the parser that gets the values out of a body.
//! - [`text`]: comparing texts by their UTF-8 bytes.
use vstd::prelude::*;

pub mod message_builder;
pub mod params;
pub mod signature;
pub mod text;
pub mod wire;

pub use wire::errors::MarshalError;
pub use wire::errors::UnmarshalError;
pub use wire::marshal::traits::Marshal;
pub use wire::marshal::traits::Signature;
pub use wire::unmarshal::traits::Unmarshal;

verus! {

/// The byte order of the integers in a message.
#[derive(Clone, Copy, Debug, PartialEq, Eq, Structural)]
pub enum ByteOrder {
    LittleEndian,
    BigEndian,
}

/// `u16::to_ne_bytes`: the two bytes of `v` in the byte order of this
/// machine, which is one of the two orders.
#[verifier::external_body]
fn native_bytes(v: u16) -> (r: [u8; 2])
    ensures
        r@ == wire::util::u16_bytes(ByteOrder::LittleEndian, v) || r@ == wire::util::u16_bytes(
            ByteOrder::BigEndian,
            v,
        ),
{
    v.to_ne_bytes()
}

impl ByteOrder {
    /// The byte order in which `bytes` are the number one: little-endian
    /// where the low byte comes first, big-endian where it comes last, and
    /// big-endian too where `bytes` are not the number one at all.
    pub fn writing_one_as(bytes: [u8; 2]) -> (r: ByteOrder)
        ensures
            r == ByteOrder::LittleEndian <==> bytes@ == wire::util::u16_bytes(
                ByteOrder::LittleEndian,
                1,
            ),
            bytes@ == wire::util::u16_bytes(ByteOrder::BigEndian, 1) ==> r == ByteOrder::BigEndian,
    {
        proof {
            reveal(wire::util::u16_bytes);
            let low_first = wire::util::u16_bytes(ByteOrder::LittleEndian, 1);
            assert(low_first[0] == 1 && low_first[1] == 0);
            assert(wire::util::u16_bytes(ByteOrder::BigEndian, 1)[0] == 0);
        }
        if bytes[0] == 1 && bytes[1] == 0 {
            assert(bytes@ =~= wire::util::u16_bytes(ByteOrder::LittleEndian, 1));
            ByteOrder::LittleEndian
        } else {
            ByteOrder::BigEndian
        }
    }

    /// The byte order of this machine: the one in which it writes the
    /// number one.
    pub fn native() -> ByteOrder {
        ByteOrder::writing_one_as(native_bytes(1))
    }
}

} // verus!
