//! What a type needs in order to be read from the wire.
use crate::params::SpecParam;
use crate::wire::errors::UnmarshalError;
use crate::wire::marshal::traits::Signature;
use crate::wire::unmarshal::UnmarshalContext;
use crate::wire::util::UnmarshalResult;
use vstd::prelude::*;

pub mod base;
pub mod container;

verus! {

/// A type whose values can be read from the wire. A value may borrow from
/// the payload and from the list of file descriptors.
pub trait Unmarshal<'buf, 'fds>: Sized + Signature {
    /// Reads a value at the cursor: the bytes that it takes with its
    /// leading padding, and the value. The cursor stays where it is.
    fn unmarshal(ctx: &UnmarshalContext<'fds, 'buf>) -> (r: UnmarshalResult<Self>)
        requires
            ctx.wf(),
        ensures
            match r {
                Ok((n, v)) => ctx.read(Self::sig_spec()) == Ok::<(int, SpecParam), UnmarshalError>(
                    (n as int, v.param()),
                ) && 1 <= n && ctx.offset + n <= ctx.buf@.len(),
                Err(e) => ctx.read(Self::sig_spec()) == Err::<(int, SpecParam), UnmarshalError>(e),
            },
    ;
}

} // verus!
