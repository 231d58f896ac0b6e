//! Reading the basic types.
use crate::wire::errors::UnmarshalError;
use crate::wire::unmarshal::base::unmarshal_bool;
use crate::wire::unmarshal::base::unmarshal_byte;
use crate::wire::unmarshal::base::unmarshal_i16;
use crate::wire::unmarshal::base::unmarshal_i32;
use crate::wire::unmarshal::base::unmarshal_i64;
use crate::wire::unmarshal::base::unmarshal_path;
use crate::wire::unmarshal::base::unmarshal_sig;
use crate::wire::unmarshal::base::unmarshal_text;
use crate::wire::unmarshal::base::unmarshal_u16;
use crate::wire::unmarshal::base::unmarshal_u32;
use crate::wire::unmarshal::base::unmarshal_u64;
use crate::wire::unmarshal::base::unmarshal_unixfd;
use crate::wire::unmarshal::lemma_unmarshal_containers;
use crate::wire::unmarshal::traits::Unmarshal;
use crate::wire::unmarshal::UnmarshalContext;
use crate::wire::util::UnmarshalResult;
use crate::wire::ObjectPath;
use crate::wire::SignatureWrapper;
use crate::wire::UnixFd;
use vstd::prelude::*;

verus! {

impl<'buf, 'fds> Unmarshal<'buf, 'fds> for u64 {
    fn unmarshal(ctx: &UnmarshalContext<'fds, 'buf>) -> (r: UnmarshalResult<Self>) {
        proof {
            lemma_unmarshal_containers(ctx.byteorder, ctx.buf@, ctx.offset as int, ctx.fds@);
        }
        unmarshal_u64(ctx)
    }
}

impl<'buf, 'fds> Unmarshal<'buf, 'fds> for i64 {
    fn unmarshal(ctx: &UnmarshalContext<'fds, 'buf>) -> (r: UnmarshalResult<Self>) {
        proof {
            lemma_unmarshal_containers(ctx.byteorder, ctx.buf@, ctx.offset as int, ctx.fds@);
        }
        unmarshal_i64(ctx)
    }
}

impl<'buf, 'fds> Unmarshal<'buf, 'fds> for u32 {
    fn unmarshal(ctx: &UnmarshalContext<'fds, 'buf>) -> (r: UnmarshalResult<Self>) {
        proof {
            lemma_unmarshal_containers(ctx.byteorder, ctx.buf@, ctx.offset as int, ctx.fds@);
        }
        unmarshal_u32(ctx)
    }
}

impl<'buf, 'fds> Unmarshal<'buf, 'fds> for i32 {
    fn unmarshal(ctx: &UnmarshalContext<'fds, 'buf>) -> (r: UnmarshalResult<Self>) {
        proof {
            lemma_unmarshal_containers(ctx.byteorder, ctx.buf@, ctx.offset as int, ctx.fds@);
        }
        unmarshal_i32(ctx)
    }
}

impl<'buf, 'fds> Unmarshal<'buf, 'fds> for u16 {
    fn unmarshal(ctx: &UnmarshalContext<'fds, 'buf>) -> (r: UnmarshalResult<Self>) {
        proof {
            lemma_unmarshal_containers(ctx.byteorder, ctx.buf@, ctx.offset as int, ctx.fds@);
        }
        unmarshal_u16(ctx)
    }
}

impl<'buf, 'fds> Unmarshal<'buf, 'fds> for i16 {
    fn unmarshal(ctx: &UnmarshalContext<'fds, 'buf>) -> (r: UnmarshalResult<Self>) {
        proof {
            lemma_unmarshal_containers(ctx.byteorder, ctx.buf@, ctx.offset as int, ctx.fds@);
        }
        unmarshal_i16(ctx)
    }
}

impl<'buf, 'fds> Unmarshal<'buf, 'fds> for u8 {
    fn unmarshal(ctx: &UnmarshalContext<'fds, 'buf>) -> (r: UnmarshalResult<Self>) {
        proof {
            lemma_unmarshal_containers(ctx.byteorder, ctx.buf@, ctx.offset as int, ctx.fds@);
        }
        unmarshal_byte(ctx)
    }
}

impl<'buf, 'fds> Unmarshal<'buf, 'fds> for bool {
    fn unmarshal(ctx: &UnmarshalContext<'fds, 'buf>) -> (r: UnmarshalResult<Self>) {
        proof {
            lemma_unmarshal_containers(ctx.byteorder, ctx.buf@, ctx.offset as int, ctx.fds@);
        }
        unmarshal_bool(ctx)
    }
}

impl<'buf, 'fds> Unmarshal<'buf, 'fds> for UnixFd {
    fn unmarshal(ctx: &UnmarshalContext<'fds, 'buf>) -> (r: UnmarshalResult<Self>) {
        proof {
            lemma_unmarshal_containers(ctx.byteorder, ctx.buf@, ctx.offset as int, ctx.fds@);
        }
        unmarshal_unixfd(ctx)
    }
}

impl<'buf, 'fds> Unmarshal<'buf, 'fds> for &'buf str {
    fn unmarshal(ctx: &UnmarshalContext<'fds, 'buf>) -> (r: UnmarshalResult<Self>) {
        proof {
            lemma_unmarshal_containers(ctx.byteorder, ctx.buf@, ctx.offset as int, ctx.fds@);
        }
        unmarshal_text(ctx)
    }
}

impl<'buf, 'fds> Unmarshal<'buf, 'fds> for String {
    fn unmarshal(ctx: &UnmarshalContext<'fds, 'buf>) -> (r: UnmarshalResult<Self>) {
        proof {
            lemma_unmarshal_containers(ctx.byteorder, ctx.buf@, ctx.offset as int, ctx.fds@);
        }
        let (n, s) = unmarshal_text(ctx)?;
        Ok((n, s.to_owned()))
    }
}

impl<'buf, 'fds> Unmarshal<'buf, 'fds> for ObjectPath {
    fn unmarshal(ctx: &UnmarshalContext<'fds, 'buf>) -> (r: UnmarshalResult<Self>) {
        proof {
            lemma_unmarshal_containers(ctx.byteorder, ctx.buf@, ctx.offset as int, ctx.fds@);
        }
        let (n, s) = unmarshal_path(ctx)?;
        match ObjectPath::new(s.to_owned()) {
            Ok(path) => Ok((n, path)),
            Err(_) => Err(UnmarshalError::InvalidObjectPath),
        }
    }
}

impl<'buf, 'fds> Unmarshal<'buf, 'fds> for SignatureWrapper {
    fn unmarshal(ctx: &UnmarshalContext<'fds, 'buf>) -> (r: UnmarshalResult<Self>) {
        proof {
            lemma_unmarshal_containers(ctx.byteorder, ctx.buf@, ctx.offset as int, ctx.fds@);
        }
        let (n, s) = unmarshal_sig(ctx)?;
        match SignatureWrapper::new(s.to_owned()) {
            Ok(sig) => Ok((n, sig)),
            Err(_) => Err(UnmarshalError::InvalidSignature),
        }
    }
}

} // verus!
