//! Writing values of the basic types.
use crate::params;
use crate::wire::errors::MarshalError;
use crate::wire::marshal::marshal_base_spec;
use crate::wire::marshal::marshal_post;
use crate::wire::marshal::marshal_spec;
use crate::wire::marshal::signature_fault;
use crate::wire::marshal::MarshalContext;
use crate::wire::util;
use vstd::prelude::*;
use vstd::string::StringSliceAdditionalSpecFns;

verus! {

/// Writes a signature value after checking that it is one.
pub fn marshal_signature(sig: &str, ctx: &mut MarshalContext) -> (r: Result<(), MarshalError>)
    ensures
        final(ctx).byteorder == old(ctx).byteorder,
        marshal_post(
            old(ctx)@,
            final(ctx)@,
            marshal_spec(params::SpecParam::Signature(sig@), old(ctx).byteorder, old(ctx)@),
            r,
        ),
{
    reveal(marshal_base_spec);
    reveal(marshal_spec);
    if sig.unicode_len() > crate::signature::MAX_SIGNATURE_LEN {
        return Err(MarshalError::TooLong);
    }
    let bytes = match crate::signature::ascii_bytes(sig) {
        Some(b) => b,
        None => {
            proof {
                let i = choose|i: int|
                    0 <= i < sig@.len() && !('\0' <= #[trigger] sig@[i] <= '\u{7f}');
                assert(!crate::signature::is_signature_char(sig@[i]));
            }
            return Err(MarshalError::InvalidSignatureChar);
        },
    };
    match crate::signature::Type::parse_description(sig) {
        Ok(_) => {},
        Err(e) => {
            if !crate::signature::all_signature_chars_of(bytes, Ghost(sig@)) {
                return Err(MarshalError::InvalidSignatureChar);
            }
            return Err(MarshalError::from_signature(e));
        },
    }
    proof {
        vstd::utf8::is_ascii_chars_encode_utf8(sig@);
    }
    match util::write_signature(sig, &mut ctx.buf) {
        Ok(()) => Ok(()),
        Err(e) => Err(e),
    }
}

/// Writes a 16-bit number, aligned to 2.
pub fn marshal_u16(v: u16, ctx: &mut MarshalContext)
    ensures
        final(ctx).byteorder == old(ctx).byteorder,
        final(ctx)@ == old(ctx)@.pad(2).put(util::u16_bytes(old(ctx).byteorder, v)),
        final(ctx)@.extends(old(ctx)@),
{
    ctx.align_to(2);
    util::write_u16(v, ctx.byteorder, &mut ctx.buf);
}

/// Writes a 32-bit number, aligned to 4.
pub fn marshal_u32(v: u32, ctx: &mut MarshalContext)
    ensures
        final(ctx).byteorder == old(ctx).byteorder,
        final(ctx)@ == old(ctx)@.pad(4).put(util::u32_bytes(old(ctx).byteorder, v)),
        final(ctx)@.extends(old(ctx)@),
{
    ctx.align_to(4);
    util::write_u32(v, ctx.byteorder, &mut ctx.buf);
}

/// Writes a 64-bit number, aligned to 8.
pub fn marshal_u64(v: u64, ctx: &mut MarshalContext)
    ensures
        final(ctx).byteorder == old(ctx).byteorder,
        final(ctx)@ == old(ctx)@.pad(8).put(util::u64_bytes(old(ctx).byteorder, v)),
        final(ctx)@.extends(old(ctx)@),
{
    ctx.align_to(8);
    util::write_u64(v, ctx.byteorder, &mut ctx.buf);
}

/// Writes a value of a basic type.
pub fn marshal_base_param(p: &params::Base, ctx: &mut MarshalContext) -> (r: Result<
    (),
    MarshalError,
>)
    ensures
        final(ctx).byteorder == old(ctx).byteorder,
        marshal_post(
            old(ctx)@,
            final(ctx)@,
            marshal_spec(p@, old(ctx).byteorder, old(ctx)@),
            r,
        ),
{
    reveal(marshal_base_spec);
    reveal(marshal_spec);
    match p {
        params::Base::Byte(v) => {
            ctx.buf.push(*v);
            assert(ctx@.buf =~= old(ctx)@.buf + seq![*v]);
            Ok(())
        },
        params::Base::Boolean(v) => {
            marshal_u32(
                if *v {
                    1
                } else {
                    0
                },
                ctx,
            );
            Ok(())
        },
        params::Base::Int16(v) => {
            marshal_u16(util::i16_to_bits(*v), ctx);
            Ok(())
        },
        params::Base::Uint16(v) => {
            marshal_u16(*v, ctx);
            Ok(())
        },
        params::Base::Int32(v) => {
            marshal_u32(util::i32_to_bits(*v), ctx);
            Ok(())
        },
        params::Base::Uint32(v) => {
            marshal_u32(*v, ctx);
            Ok(())
        },
        params::Base::Int64(v) => {
            marshal_u64(util::i64_to_bits(*v), ctx);
            Ok(())
        },
        params::Base::Uint64(v) => {
            marshal_u64(*v, ctx);
            Ok(())
        },
        params::Base::Double(v) => {
            marshal_u64(*v, ctx);
            Ok(())
        },
        params::Base::String(s) => marshal_string(s.as_str(), ctx),
        params::Base::ObjectPath(s) => marshal_object_path(s.as_str(), ctx),
        params::Base::Signature(s) => marshal_signature(s.as_str(), ctx),
        params::Base::UnixFd(fd) => marshal_unixfd(*fd, ctx),
    }
}

/// Writes an object path after checking that it is one.
pub fn marshal_object_path(s: &str, ctx: &mut MarshalContext) -> (r: Result<(), MarshalError>)
    ensures
        final(ctx).byteorder == old(ctx).byteorder,
        marshal_post(
            old(ctx)@,
            final(ctx)@,
            marshal_spec(params::SpecParam::ObjectPath(s@), old(ctx).byteorder, old(ctx)@),
            r,
        ),
{
    reveal(marshal_base_spec);
    reveal(marshal_spec);
    params::validate_object_path(s)?;
    marshal_string(s, ctx)
}

/// Writes a string, aligned to 4.
pub fn marshal_string(s: &str, ctx: &mut MarshalContext) -> (r: Result<(), MarshalError>)
    ensures
        final(ctx).byteorder == old(ctx).byteorder,
        marshal_post(
            old(ctx)@,
            final(ctx)@,
            marshal_spec(params::SpecParam::String(s@), old(ctx).byteorder, old(ctx)@),
            r,
        ),
{
    reveal(marshal_base_spec);
    reveal(marshal_spec);
    if s.as_bytes().len() > u32::MAX as usize {
        return Err(MarshalError::TooLong);
    }
    ctx.align_to(4);
    match util::write_string(s, ctx.byteorder, &mut ctx.buf) {
        Ok(()) => Ok(()),
        Err(e) => Err(e),
    }
}

/// Adds a file descriptor to the list of the message and writes its index,
/// aligned to 4.
pub fn marshal_unixfd(fd: crate::wire::UnixFd, ctx: &mut MarshalContext) -> (r: Result<
    (),
    MarshalError,
>)
    ensures
        final(ctx).byteorder == old(ctx).byteorder,
        marshal_post(
            old(ctx)@,
            final(ctx)@,
            marshal_spec(params::SpecParam::UnixFd(fd), old(ctx).byteorder, old(ctx)@),
            r,
        ),
{
    reveal(marshal_base_spec);
    reveal(marshal_spec);
    let idx = ctx.fds.len();
    if idx > u32::MAX as usize {
        return Err(MarshalError::FdIndexOverflow);
    }
    ctx.fds.push(fd);
    ctx.align_to(4);
    util::write_u32(idx as u32, ctx.byteorder, &mut ctx.buf);
    Ok(())
}

} // verus!
