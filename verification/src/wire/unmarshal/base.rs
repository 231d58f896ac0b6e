//! Reading values of the basic types.
use crate::params;
use crate::params::SpecParam;
use crate::signature;
use crate::wire::errors::UnmarshalError;
use crate::wire::unmarshal::unmarshal_base_spec;
use crate::wire::unmarshal::UnmarshalContext;
use crate::wire::util;
use crate::wire::util::UnmarshalResult;
use crate::wire::validate_raw::rest;
use crate::wire::UnixFd;
use vstd::prelude::*;
use vstd::slice::slice_subrange;

verus! {

/// The bytes from the cursor on, after the padding of a value aligned to
/// `align`, and the number of padding bytes.
pub fn aligned_tail<'fds, 'buf>(align: usize, ctx: &UnmarshalContext<'fds, 'buf>) -> (r: Result<
    (usize, &'buf [u8]),
    UnmarshalError,
>)
    requires
        0 < align <= 8,
        ctx.wf(),
    ensures
        match r {
            Ok((padding, tail)) => util::align_offset_spec(
                align as nat,
                ctx.buf@,
                ctx.offset as int,
            ) == Ok::<usize, UnmarshalError>(padding) && tail@ == rest(
                ctx.buf@,
                ctx.offset + padding,
            ) && ctx.offset + padding + tail@.len() == ctx.buf@.len() && ctx.buf@.len()
                <= usize::MAX,
            Err(e) => util::align_offset_spec(align as nat, ctx.buf@, ctx.offset as int) == Err::<
                usize,
                UnmarshalError,
            >(e),
        },
{
    let padding = util::align_offset(align, ctx.buf, ctx.offset)?;
    let total = ctx.buf.len();
    Ok((padding, slice_subrange(ctx.buf, ctx.offset + padding, total)))
}

/// Reads a 16-bit number at the cursor.
pub fn unmarshal_u16(ctx: &UnmarshalContext) -> (r: UnmarshalResult<u16>)
    requires
        ctx.wf(),
    ensures
        match r {
            Ok((n, v)) => unmarshal_base_spec(
                signature::Base::Uint16,
                ctx.byteorder,
                ctx.buf@,
                ctx.offset as int,
                ctx.fds@,
            ) == Ok::<(int, SpecParam), UnmarshalError>((n as int, SpecParam::Uint16(v))) && 1 <= n
                && ctx.offset + n <= ctx.buf@.len(),
            Err(e) => unmarshal_base_spec(
                signature::Base::Uint16,
                ctx.byteorder,
                ctx.buf@,
                ctx.offset as int,
                ctx.fds@,
            ) == Err::<(int, SpecParam), UnmarshalError>(e),
        },
{
    reveal(unmarshal_base_spec);
    let (padding, tail) = aligned_tail(2, ctx)?;
    let (n, v) = util::parse_u16(tail, ctx.byteorder)?;
    Ok((n + padding, v))
}

/// Reads a 32-bit number at the cursor.
pub fn unmarshal_u32(ctx: &UnmarshalContext) -> (r: UnmarshalResult<u32>)
    requires
        ctx.wf(),
    ensures
        match r {
            Ok((n, v)) => unmarshal_base_spec(
                signature::Base::Uint32,
                ctx.byteorder,
                ctx.buf@,
                ctx.offset as int,
                ctx.fds@,
            ) == Ok::<(int, SpecParam), UnmarshalError>((n as int, SpecParam::Uint32(v))) && 1 <= n
                && ctx.offset + n <= ctx.buf@.len(),
            Err(e) => unmarshal_base_spec(
                signature::Base::Uint32,
                ctx.byteorder,
                ctx.buf@,
                ctx.offset as int,
                ctx.fds@,
            ) == Err::<(int, SpecParam), UnmarshalError>(e),
        },
{
    reveal(unmarshal_base_spec);
    let (padding, tail) = aligned_tail(4, ctx)?;
    let (n, v) = util::parse_u32(tail, ctx.byteorder)?;
    Ok((n + padding, v))
}

/// Reads a 64-bit number at the cursor.
pub fn unmarshal_u64(ctx: &UnmarshalContext) -> (r: UnmarshalResult<u64>)
    requires
        ctx.wf(),
    ensures
        match r {
            Ok((n, v)) => unmarshal_base_spec(
                signature::Base::Uint64,
                ctx.byteorder,
                ctx.buf@,
                ctx.offset as int,
                ctx.fds@,
            ) == Ok::<(int, SpecParam), UnmarshalError>((n as int, SpecParam::Uint64(v))) && 1 <= n
                && ctx.offset + n <= ctx.buf@.len(),
            Err(e) => unmarshal_base_spec(
                signature::Base::Uint64,
                ctx.byteorder,
                ctx.buf@,
                ctx.offset as int,
                ctx.fds@,
            ) == Err::<(int, SpecParam), UnmarshalError>(e),
        },
{
    reveal(unmarshal_base_spec);
    let (padding, tail) = aligned_tail(8, ctx)?;
    let (n, v) = util::parse_u64(tail, ctx.byteorder)?;
    Ok((n + padding, v))
}

/// Reads a byte at the cursor.
pub fn unmarshal_byte(ctx: &UnmarshalContext) -> (r: UnmarshalResult<u8>)
    requires
        ctx.wf(),
    ensures
        match r {
            Ok((n, v)) => unmarshal_base_spec(
                signature::Base::Byte,
                ctx.byteorder,
                ctx.buf@,
                ctx.offset as int,
                ctx.fds@,
            ) == Ok::<(int, SpecParam), UnmarshalError>((n as int, SpecParam::Byte(v))) && 1 <= n
                && ctx.offset + n <= ctx.buf@.len(),
            Err(e) => unmarshal_base_spec(
                signature::Base::Byte,
                ctx.byteorder,
                ctx.buf@,
                ctx.offset as int,
                ctx.fds@,
            ) == Err::<(int, SpecParam), UnmarshalError>(e),
        },
{
    reveal(unmarshal_base_spec);
    if ctx.offset >= ctx.buf.len() {
        return Err(UnmarshalError::NotEnoughBytes);
    }
    Ok((1, ctx.buf[ctx.offset]))
}

/// Reads a boolean at the cursor.
pub fn unmarshal_bool(ctx: &UnmarshalContext) -> (r: UnmarshalResult<bool>)
    requires
        ctx.wf(),
    ensures
        match r {
            Ok((n, v)) => unmarshal_base_spec(
                signature::Base::Boolean,
                ctx.byteorder,
                ctx.buf@,
                ctx.offset as int,
                ctx.fds@,
            ) == Ok::<(int, SpecParam), UnmarshalError>((n as int, SpecParam::Boolean(v))) && 1
                <= n && ctx.offset + n <= ctx.buf@.len(),
            Err(e) => unmarshal_base_spec(
                signature::Base::Boolean,
                ctx.byteorder,
                ctx.buf@,
                ctx.offset as int,
                ctx.fds@,
            ) == Err::<(int, SpecParam), UnmarshalError>(e),
        },
{
    reveal(unmarshal_base_spec);
    let (padding, tail) = aligned_tail(4, ctx)?;
    let (n, v) = util::parse_u32(tail, ctx.byteorder)?;
    if v > 1 {
        return Err(UnmarshalError::InvalidBoolean);
    }
    Ok((n + padding, v == 1))
}

/// Reads the index of a file descriptor at the cursor and looks it up.
pub fn unmarshal_unixfd(ctx: &UnmarshalContext) -> (r: UnmarshalResult<UnixFd>)
    requires
        ctx.wf(),
    ensures
        match r {
            Ok((n, v)) => unmarshal_base_spec(
                signature::Base::UnixFd,
                ctx.byteorder,
                ctx.buf@,
                ctx.offset as int,
                ctx.fds@,
            ) == Ok::<(int, SpecParam), UnmarshalError>((n as int, SpecParam::UnixFd(v))) && 1 <= n
                && ctx.offset + n <= ctx.buf@.len(),
            Err(e) => unmarshal_base_spec(
                signature::Base::UnixFd,
                ctx.byteorder,
                ctx.buf@,
                ctx.offset as int,
                ctx.fds@,
            ) == Err::<(int, SpecParam), UnmarshalError>(e),
        },
{
    reveal(unmarshal_base_spec);
    let (padding, tail) = aligned_tail(4, ctx)?;
    let (n, idx) = util::parse_u32(tail, ctx.byteorder)?;
    if idx as usize >= ctx.fds.len() {
        return Err(UnmarshalError::BadFdIndex);
    }
    Ok((n + padding, ctx.fds[idx as usize]))
}

/// Reads a string at the cursor; the text borrows from the payload.
pub fn unmarshal_text<'fds, 'buf>(ctx: &UnmarshalContext<'fds, 'buf>) -> (r: UnmarshalResult<
    &'buf str,
>)
    requires
        ctx.wf(),
    ensures
        match r {
            Ok((n, v)) => unmarshal_base_spec(
                signature::Base::String,
                ctx.byteorder,
                ctx.buf@,
                ctx.offset as int,
                ctx.fds@,
            ) == Ok::<(int, SpecParam), UnmarshalError>((n as int, SpecParam::String(v@))) && 1
                <= n && ctx.offset + n <= ctx.buf@.len(),
            Err(e) => unmarshal_base_spec(
                signature::Base::String,
                ctx.byteorder,
                ctx.buf@,
                ctx.offset as int,
                ctx.fds@,
            ) == Err::<(int, SpecParam), UnmarshalError>(e),
        },
{
    reveal(unmarshal_base_spec);
    let (padding, tail) = aligned_tail(4, ctx)?;
    let (n, s) = util::unmarshal_str(ctx.byteorder, tail)?;
    Ok((n + padding, s))
}

/// Reads an object path at the cursor; the text borrows from the payload.
pub fn unmarshal_path<'fds, 'buf>(ctx: &UnmarshalContext<'fds, 'buf>) -> (r: UnmarshalResult<
    &'buf str,
>)
    requires
        ctx.wf(),
    ensures
        match r {
            Ok((n, v)) => unmarshal_base_spec(
                signature::Base::ObjectPath,
                ctx.byteorder,
                ctx.buf@,
                ctx.offset as int,
                ctx.fds@,
            ) == Ok::<(int, SpecParam), UnmarshalError>((n as int, SpecParam::ObjectPath(v@)))
                && 1 <= n && ctx.offset + n <= ctx.buf@.len() && params::valid_object_path(v@),
            Err(e) => unmarshal_base_spec(
                signature::Base::ObjectPath,
                ctx.byteorder,
                ctx.buf@,
                ctx.offset as int,
                ctx.fds@,
            ) == Err::<(int, SpecParam), UnmarshalError>(e),
        },
{
    reveal(unmarshal_base_spec);
    let (padding, tail) = aligned_tail(4, ctx)?;
    let (n, s) = util::unmarshal_str(ctx.byteorder, tail)?;
    if params::validate_object_path(s).is_err() {
        return Err(UnmarshalError::InvalidObjectPath);
    }
    Ok((n + padding, s))
}

/// Reads a signature value at the cursor; the text borrows from the payload.
pub fn unmarshal_sig<'fds, 'buf>(ctx: &UnmarshalContext<'fds, 'buf>) -> (r: UnmarshalResult<
    &'buf str,
>)
    requires
        ctx.wf(),
    ensures
        match r {
            Ok((n, v)) => unmarshal_base_spec(
                signature::Base::Signature,
                ctx.byteorder,
                ctx.buf@,
                ctx.offset as int,
                ctx.fds@,
            ) == Ok::<(int, SpecParam), UnmarshalError>((n as int, SpecParam::Signature(v@)))
                && 1 <= n && ctx.offset + n <= ctx.buf@.len() && params::valid_signature(v@),
            Err(e) => unmarshal_base_spec(
                signature::Base::Signature,
                ctx.byteorder,
                ctx.buf@,
                ctx.offset as int,
                ctx.fds@,
            ) == Err::<(int, SpecParam), UnmarshalError>(e),
        },
{
    reveal(unmarshal_base_spec);
    let (padding, tail) = aligned_tail(1, ctx)?;
    let (n, s) = util::unmarshal_signature(tail)?;
    if params::validate_signature(s).is_err() {
        return Err(UnmarshalError::InvalidSignature);
    }
    Ok((n + padding, s))
}

/// Reads a value of the basic type `sig` at the cursor.
pub fn unmarshal_base(sig: signature::Base, ctx: &UnmarshalContext) -> (r: UnmarshalResult<
    params::Base,
>)
    requires
        ctx.wf(),
    ensures
        match r {
            Ok((n, v)) => unmarshal_base_spec(
                sig,
                ctx.byteorder,
                ctx.buf@,
                ctx.offset as int,
                ctx.fds@,
            ) == Ok::<(int, SpecParam), UnmarshalError>((n as int, v@)) && 1 <= n && ctx.offset
                + n <= ctx.buf@.len(),
            Err(e) => unmarshal_base_spec(
                sig,
                ctx.byteorder,
                ctx.buf@,
                ctx.offset as int,
                ctx.fds@,
            ) == Err::<(int, SpecParam), UnmarshalError>(e),
        },
{
    match sig {
        signature::Base::Byte => {
            let (n, v) = unmarshal_byte(ctx)?;
            Ok((n, params::Base::Byte(v)))
        },
        signature::Base::Uint16 => {
            let (n, v) = unmarshal_u16(ctx)?;
            Ok((n, params::Base::Uint16(v)))
        },
        signature::Base::Int16 => {
            let (n, v) = unmarshal_i16(ctx)?;
            Ok((n, params::Base::Int16(v)))
        },
        signature::Base::Uint32 => {
            let (n, v) = unmarshal_u32(ctx)?;
            Ok((n, params::Base::Uint32(v)))
        },
        signature::Base::Int32 => {
            let (n, v) = unmarshal_i32(ctx)?;
            Ok((n, params::Base::Int32(v)))
        },
        signature::Base::Uint64 => {
            let (n, v) = unmarshal_u64(ctx)?;
            Ok((n, params::Base::Uint64(v)))
        },
        signature::Base::Int64 => {
            let (n, v) = unmarshal_i64(ctx)?;
            Ok((n, params::Base::Int64(v)))
        },
        signature::Base::Double => {
            let (n, v) = unmarshal_double(ctx)?;
            Ok((n, params::Base::Double(v)))
        },
        signature::Base::Boolean => {
            let (n, v) = unmarshal_bool(ctx)?;
            Ok((n, params::Base::Boolean(v)))
        },
        signature::Base::UnixFd => {
            let (n, v) = unmarshal_unixfd(ctx)?;
            Ok((n, params::Base::UnixFd(v)))
        },
        signature::Base::String => {
            let (n, v) = unmarshal_text(ctx)?;
            Ok((n, params::Base::String(v.to_owned())))
        },
        signature::Base::ObjectPath => {
            let (n, v) = unmarshal_path(ctx)?;
            Ok((n, params::Base::ObjectPath(v.to_owned())))
        },
        signature::Base::Signature => {
            let (n, v) = unmarshal_sig(ctx)?;
            Ok((n, params::Base::Signature(v.to_owned())))
        },
    }
}

/// Reads a signed 16-bit number at the cursor.
pub fn unmarshal_i16(ctx: &UnmarshalContext) -> (r: UnmarshalResult<i16>)
    requires
        ctx.wf(),
    ensures
        match r {
            Ok((n, v)) => unmarshal_base_spec(
                signature::Base::Int16,
                ctx.byteorder,
                ctx.buf@,
                ctx.offset as int,
                ctx.fds@,
            ) == Ok::<(int, SpecParam), UnmarshalError>((n as int, SpecParam::Int16(v))) && 1 <= n
                && ctx.offset + n <= ctx.buf@.len(),
            Err(e) => unmarshal_base_spec(
                signature::Base::Int16,
                ctx.byteorder,
                ctx.buf@,
                ctx.offset as int,
                ctx.fds@,
            ) == Err::<(int, SpecParam), UnmarshalError>(e),
        },
{
    reveal(unmarshal_base_spec);
    let (padding, tail) = aligned_tail(2, ctx)?;
    let (n, v) = util::parse_u16(tail, ctx.byteorder)?;
    Ok((n + padding, util::i16_from_bits(v)))
}

/// Reads a signed 32-bit number at the cursor.
pub fn unmarshal_i32(ctx: &UnmarshalContext) -> (r: UnmarshalResult<i32>)
    requires
        ctx.wf(),
    ensures
        match r {
            Ok((n, v)) => unmarshal_base_spec(
                signature::Base::Int32,
                ctx.byteorder,
                ctx.buf@,
                ctx.offset as int,
                ctx.fds@,
            ) == Ok::<(int, SpecParam), UnmarshalError>((n as int, SpecParam::Int32(v))) && 1 <= n
                && ctx.offset + n <= ctx.buf@.len(),
            Err(e) => unmarshal_base_spec(
                signature::Base::Int32,
                ctx.byteorder,
                ctx.buf@,
                ctx.offset as int,
                ctx.fds@,
            ) == Err::<(int, SpecParam), UnmarshalError>(e),
        },
{
    reveal(unmarshal_base_spec);
    let (padding, tail) = aligned_tail(4, ctx)?;
    let (n, v) = util::parse_u32(tail, ctx.byteorder)?;
    Ok((n + padding, util::i32_from_bits(v)))
}

/// Reads a signed 64-bit number at the cursor.
pub fn unmarshal_i64(ctx: &UnmarshalContext) -> (r: UnmarshalResult<i64>)
    requires
        ctx.wf(),
    ensures
        match r {
            Ok((n, v)) => unmarshal_base_spec(
                signature::Base::Int64,
                ctx.byteorder,
                ctx.buf@,
                ctx.offset as int,
                ctx.fds@,
            ) == Ok::<(int, SpecParam), UnmarshalError>((n as int, SpecParam::Int64(v))) && 1 <= n
                && ctx.offset + n <= ctx.buf@.len(),
            Err(e) => unmarshal_base_spec(
                signature::Base::Int64,
                ctx.byteorder,
                ctx.buf@,
                ctx.offset as int,
                ctx.fds@,
            ) == Err::<(int, SpecParam), UnmarshalError>(e),
        },
{
    reveal(unmarshal_base_spec);
    let (padding, tail) = aligned_tail(8, ctx)?;
    let (n, v) = util::parse_u64(tail, ctx.byteorder)?;
    Ok((n + padding, util::i64_from_bits(v)))
}

/// Reads the 64 bits of a double at the cursor.
pub fn unmarshal_double(ctx: &UnmarshalContext) -> (r: UnmarshalResult<u64>)
    requires
        ctx.wf(),
    ensures
        match r {
            Ok((n, v)) => unmarshal_base_spec(
                signature::Base::Double,
                ctx.byteorder,
                ctx.buf@,
                ctx.offset as int,
                ctx.fds@,
            ) == Ok::<(int, SpecParam), UnmarshalError>((n as int, SpecParam::Double(v))) && 1 <= n
                && ctx.offset + n <= ctx.buf@.len(),
            Err(e) => unmarshal_base_spec(
                signature::Base::Double,
                ctx.byteorder,
                ctx.buf@,
                ctx.offset as int,
                ctx.fds@,
            ) == Err::<(int, SpecParam), UnmarshalError>(e),
        },
{
    reveal(unmarshal_base_spec);
    let (padding, tail) = aligned_tail(8, ctx)?;
    let (n, v) = util::parse_u64(tail, ctx.byteorder)?;
    Ok((n + padding, v))
}

} // verus!
