//! Reading values: what the bytes mean as a function of the type, and the
//! cursor that the readers share.
use crate::params::valid_object_path;
use crate::params::SpecParam;
use crate::signature;
use crate::signature::parse_description_spec;
use crate::signature::SpecType;
use crate::wire::errors::UnmarshalError;
use crate::wire::util;
use crate::wire::util::align_offset_spec;
use crate::wire::util::unmarshal_signature_spec;
use crate::wire::util::unmarshal_str_spec;
use crate::wire::validate_raw::collection_head;
use crate::wire::validate_raw::fixed_size;
use crate::wire::validate_raw::rest;
use crate::wire::UnixFd;
use crate::ByteOrder;
use vstd::prelude::*;

pub mod base;
pub mod container;
pub mod traits;

verus! {

/// The read cursor: the payload, the place in it where the next value
/// starts, and the file descriptors that the payload refers to.
#[derive(Clone, Copy, Debug)]
pub struct UnmarshalContext<'fds, 'buf> {
    pub byteorder: ByteOrder,
    pub buf: &'buf [u8],
    pub offset: usize,
    pub fds: &'fds [UnixFd],
}

/// What reading gives: the bytes that the value takes with its leading
/// padding, and the value.
pub type SpecUnmarshal = Result<(int, SpecParam), UnmarshalError>;

/// The value of a basic type that the bytes at the start of `b` hold.
pub open spec fn fixed_value(sig: signature::Base, bo: ByteOrder, b: Seq<u8>) -> SpecParam {
    match sig {
        signature::Base::Byte => SpecParam::Byte(b[0]),
        signature::Base::Int16 => SpecParam::Int16(util::i16_of_bits(util::u16_of(bo, b))),
        signature::Base::Uint16 => SpecParam::Uint16(util::u16_of(bo, b)),
        signature::Base::Int32 => SpecParam::Int32(util::i32_of_bits(util::u32_of(bo, b))),
        signature::Base::Uint32 => SpecParam::Uint32(util::u32_of(bo, b)),
        signature::Base::Int64 => SpecParam::Int64(util::i64_of_bits(util::u64_of(bo, b))),
        signature::Base::Uint64 => SpecParam::Uint64(util::u64_of(bo, b)),
        _ => SpecParam::Double(util::u64_of(bo, b)),
    }
}

/// What reading a value of a basic type at `offset` gives.
#[verifier::opaque]
pub open spec fn unmarshal_base_spec(
    sig: signature::Base,
    bo: ByteOrder,
    buf: Seq<u8>,
    offset: int,
    fds: Seq<UnixFd>,
) -> SpecUnmarshal {
    match align_offset_spec(sig.alignment(), buf, offset) {
        Err(e) => Err(e),
        Ok(padding) => {
            let start = offset + padding;
            match sig {
                signature::Base::String => match unmarshal_str_spec(bo, rest(buf, start)) {
                    Err(e) => Err(e),
                    Ok((n, s)) => Ok((n + padding, SpecParam::String(s))),
                },
                signature::Base::ObjectPath => match unmarshal_str_spec(bo, rest(buf, start)) {
                    Err(e) => Err(e),
                    Ok((n, s)) => if valid_object_path(s) {
                        Ok((n + padding, SpecParam::ObjectPath(s)))
                    } else {
                        Err(UnmarshalError::InvalidObjectPath)
                    },
                },
                signature::Base::Signature => match unmarshal_signature_spec(rest(buf, start)) {
                    Err(e) => Err(e),
                    Ok((n, s)) => if parse_description_spec(s) is Ok {
                        Ok((n + padding, SpecParam::Signature(s)))
                    } else {
                        Err(UnmarshalError::InvalidSignature)
                    },
                },
                signature::Base::Boolean => if buf.len() - start < 4 {
                    Err(UnmarshalError::NotEnoughBytes)
                } else if util::u32_of(bo, rest(buf, start)) > 1 {
                    Err(UnmarshalError::InvalidBoolean)
                } else {
                    Ok((4 + padding, SpecParam::Boolean(util::u32_of(bo, rest(buf, start)) == 1)))
                },
                signature::Base::UnixFd => if buf.len() - start < 4 {
                    Err(UnmarshalError::NotEnoughBytes)
                } else if util::u32_of(bo, rest(buf, start)) >= fds.len() {
                    Err(UnmarshalError::BadFdIndex)
                } else {
                    Ok(
                        (
                            4 + padding,
                            SpecParam::UnixFd(fds[util::u32_of(bo, rest(buf, start)) as int]),
                        ),
                    )
                },
                _ => if buf.len() - start < fixed_size(sig) {
                    Err(UnmarshalError::NotEnoughBytes)
                } else {
                    Ok((fixed_size(sig) + padding, fixed_value(sig, bo, rest(buf, start))))
                },
            }
        },
    }
}

/// What reading a value of type `sig` at `offset` gives: the bytes that it
/// takes with its leading padding and the value, or the first fault.
#[verifier::opaque]
pub open spec fn unmarshal_spec(
    sig: SpecType,
    bo: ByteOrder,
    buf: Seq<u8>,
    offset: int,
    fds: Seq<UnixFd>,
) -> SpecUnmarshal
    decreases buf.len() - offset, sig, 0nat,
{
    match sig {
        SpecType::Base(b) => unmarshal_base_spec(b, bo, buf, offset, fds),
        SpecType::Array(elem) => match collection_head(bo, offset, buf, elem.alignment()) {
            Err((_, e)) => Err(e),
            Ok((head, len)) => if offset < 0 || head < 4 || len < 0 || offset + head + len
                > buf.len() {
                Err(UnmarshalError::NotEnoughBytes)
            } else {
                match unmarshal_elems(
                    *elem,
                    bo,
                    buf.subrange(0, offset + head + len),
                    offset + head,
                    fds,
                ) {
                    Err(e) => Err(e),
                    Ok(vs) => Ok((head + len, SpecParam::Array(*elem, vs))),
                }
            },
        },
        SpecType::Dict(k, v) => match collection_head(bo, offset, buf, 8) {
            Err((_, e)) => Err(e),
            Ok((head, len)) => if offset < 0 || head < 4 || len < 0 || offset + head + len
                > buf.len() {
                Err(UnmarshalError::NotEnoughBytes)
            } else {
                match unmarshal_entries(
                    k,
                    *v,
                    bo,
                    buf.subrange(0, offset + head + len),
                    offset + head,
                    fds,
                ) {
                    Err(e) => Err(e),
                    Ok(es) => Ok((head + len, SpecParam::Dict(k, *v, es))),
                }
            },
        },
        SpecType::Struct(fields) => match align_offset_spec(8, buf, offset) {
            Err(e) => Err(e),
            Ok(padding) => match unmarshal_fields(fields, 0, bo, buf, offset + padding, fds) {
                Err(e) => Err(e),
                Ok((n, vs)) => Ok((padding + n, SpecParam::Struct(vs))),
            },
        },
        SpecType::Variant => match unmarshal_signature_spec(rest(buf, offset)) {
            Err(e) => Err(e),
            Ok((n, s)) => match parse_description_spec(s) {
                Err(_) => Err(UnmarshalError::InvalidSignature),
                Ok(ts) => if ts.len() != 1 {
                    Err(UnmarshalError::WrongSignature)
                } else if n < 1 || offset + n > buf.len() {
                    Err(UnmarshalError::NotEnoughBytes)
                } else {
                    match unmarshal_spec(ts[0], bo, buf, offset + n, fds) {
                        Err(e) => Err(e),
                        Ok((m, v)) => Ok((n + m, SpecParam::Variant(ts[0], Box::new(v)))),
                    }
                },
            },
        },
    }
}

/// The elements of an array that fill `buf` from `offset` to its end.
pub open spec fn unmarshal_elems(
    elem: SpecType,
    bo: ByteOrder,
    buf: Seq<u8>,
    offset: int,
    fds: Seq<UnixFd>,
) -> Result<Seq<SpecParam>, UnmarshalError>
    decreases buf.len() - offset, elem, 1nat,
{
    if offset >= buf.len() {
        Ok(Seq::empty())
    } else {
        match unmarshal_spec(elem, bo, buf, offset, fds) {
            Err(e) => Err(e),
            Ok((n, v)) => if n < 1 || offset + n > buf.len() {
                Ok(seq![v])
            } else {
                match unmarshal_elems(elem, bo, buf, offset + n, fds) {
                    Err(e) => Err(e),
                    Ok(vs) => Ok(seq![v] + vs),
                }
            },
        }
    }
}

/// The entry of a dict at `offset`: padding to 8, the key, the value;
/// with the bytes that they take together.
pub open spec fn unmarshal_entry(
    k: signature::Base,
    v: SpecType,
    bo: ByteOrder,
    buf: Seq<u8>,
    offset: int,
    fds: Seq<UnixFd>,
) -> Result<(int, (SpecParam, SpecParam)), UnmarshalError>
    decreases buf.len() - offset, v, 1nat,
{
    match align_offset_spec(8, buf, offset) {
        Err(e) => Err(e),
        Ok(padding) => match unmarshal_base_spec(k, bo, buf, offset + padding, fds) {
            Err(e) => Err(e),
            Ok((kn, key)) => if kn < 0 || offset + padding + kn > buf.len() {
                Err(UnmarshalError::NotEnoughBytes)
            } else {
                match unmarshal_spec(v, bo, buf, offset + padding + kn, fds) {
                    Err(e) => Err(e),
                    Ok((vn, val)) => Ok((padding + kn + vn, (key, val))),
                }
            },
        },
    }
}

/// The entries of a dict that fill `buf` from `offset` to its end.
pub open spec fn unmarshal_entries(
    k: signature::Base,
    v: SpecType,
    bo: ByteOrder,
    buf: Seq<u8>,
    offset: int,
    fds: Seq<UnixFd>,
) -> Result<Seq<(SpecParam, SpecParam)>, UnmarshalError>
    decreases buf.len() - offset, v, 2nat,
{
    if offset >= buf.len() {
        Ok(Seq::empty())
    } else {
        match unmarshal_entry(k, v, bo, buf, offset, fds) {
            Err(e) => Err(e),
            Ok((n, entry)) => if n < 1 || offset + n > buf.len() {
                Ok(seq![entry])
            } else {
                match unmarshal_entries(k, v, bo, buf, offset + n, fds) {
                    Err(e) => Err(e),
                    Ok(es) => Ok(seq![entry] + es),
                }
            },
        }
    }
}

/// The members of a struct from member `i` on, the first of them at
/// `offset`: the bytes that they take together, and their values.
pub open spec fn unmarshal_fields(
    fields: Seq<SpecType>,
    i: int,
    bo: ByteOrder,
    buf: Seq<u8>,
    offset: int,
    fds: Seq<UnixFd>,
) -> Result<(int, Seq<SpecParam>), UnmarshalError>
    decreases buf.len() - offset, fields, fields.len() - i,
{
    if i < 0 || i >= fields.len() {
        Ok((0, Seq::empty()))
    } else {
        match unmarshal_spec(fields[i], bo, buf, offset, fds) {
            Err(e) => Err(e),
            Ok((n, v)) => if n < 0 || offset + n > buf.len() {
                Ok((n, seq![v]))
            } else {
                match unmarshal_fields(fields, i + 1, bo, buf, offset + n, fds) {
                    Err(e) => Err(e),
                    Ok((m, vs)) => Ok((n + m, seq![v] + vs)),
                }
            },
        }
    }
}

impl<'fds, 'buf> UnmarshalContext<'fds, 'buf> {
    /// Whether the cursor stands within the payload.
    pub open spec fn wf(&self) -> bool {
        self.offset <= self.buf@.len()
    }

    /// What reading a value of type `sig` at the cursor gives.
    pub open spec fn read(&self, sig: SpecType) -> SpecUnmarshal {
        unmarshal_spec(sig, self.byteorder, self.buf@, self.offset as int, self.fds@)
    }

    /// The cursor `n` bytes further on.
    pub fn advanced(&self, n: usize) -> (r: UnmarshalContext<'fds, 'buf>)
        requires
            self.offset + n <= self.buf@.len(),
        ensures
            r.byteorder == self.byteorder,
            r.buf == self.buf,
            r.fds == self.fds,
            r.offset == self.offset + n,
    {
        let len = self.buf.len();
        UnmarshalContext {
            byteorder: self.byteorder,
            buf: self.buf,
            offset: self.offset + n,
            fds: self.fds,
        }
    }
}

/// What reading the elements of an array comes to, one element at a time.
pub proof fn lemma_unmarshal_elems_step(
    elem: SpecType,
    bo: ByteOrder,
    buf: Seq<u8>,
    offset: int,
    fds: Seq<UnixFd>,
)
    ensures
        unmarshal_elems(elem, bo, buf, offset, fds) == if offset >= buf.len() {
            Ok::<Seq<SpecParam>, UnmarshalError>(Seq::empty())
        } else {
            match unmarshal_spec(elem, bo, buf, offset, fds) {
                Err(e) => Err(e),
                Ok((n, v)) => if n < 1 || offset + n > buf.len() {
                    Ok(seq![v])
                } else {
                    match unmarshal_elems(elem, bo, buf, offset + n, fds) {
                        Err(e) => Err(e),
                        Ok(vs) => Ok(seq![v] + vs),
                    }
                },
            }
        },
{
    reveal(unmarshal_spec);
}

/// What reading the entries of a dict comes to, one entry at a time.
pub proof fn lemma_unmarshal_entries_step(
    k: signature::Base,
    v: SpecType,
    bo: ByteOrder,
    buf: Seq<u8>,
    offset: int,
    fds: Seq<UnixFd>,
)
    ensures
        unmarshal_entries(k, v, bo, buf, offset, fds) == if offset >= buf.len() {
            Ok::<Seq<(SpecParam, SpecParam)>, UnmarshalError>(Seq::empty())
        } else {
            match unmarshal_entry(k, v, bo, buf, offset, fds) {
                Err(e) => Err(e),
                Ok((n, entry)) => if n < 1 || offset + n > buf.len() {
                    Ok(seq![entry])
                } else {
                    match unmarshal_entries(k, v, bo, buf, offset + n, fds) {
                        Err(e) => Err(e),
                        Ok(es) => Ok(seq![entry] + es),
                    }
                },
            }
        },
{
    reveal(unmarshal_spec);
}

/// What reading one entry of a dict comes to.
pub proof fn lemma_unmarshal_entry(
    k: signature::Base,
    v: SpecType,
    bo: ByteOrder,
    buf: Seq<u8>,
    offset: int,
    fds: Seq<UnixFd>,
)
    ensures
        unmarshal_entry(k, v, bo, buf, offset, fds) == match align_offset_spec(8, buf, offset) {
            Err(e) => Err::<(int, (SpecParam, SpecParam)), UnmarshalError>(e),
            Ok(padding) => match unmarshal_base_spec(k, bo, buf, offset + padding, fds) {
                Err(e) => Err(e),
                Ok((kn, key)) => if kn < 0 || offset + padding + kn > buf.len() {
                    Err(UnmarshalError::NotEnoughBytes)
                } else {
                    match unmarshal_spec(v, bo, buf, offset + padding + kn, fds) {
                        Err(e) => Err(e),
                        Ok((vn, val)) => Ok((padding + kn + vn, (key, val))),
                    }
                },
            },
        },
{
    reveal(unmarshal_spec);
}

/// What reading the members of a struct comes to, one member at a time.
pub proof fn lemma_unmarshal_fields_step(
    fields: Seq<SpecType>,
    i: int,
    bo: ByteOrder,
    buf: Seq<u8>,
    offset: int,
    fds: Seq<UnixFd>,
)
    ensures
        unmarshal_fields(fields, i, bo, buf, offset, fds) == if i < 0 || i >= fields.len() {
            Ok::<(int, Seq<SpecParam>), UnmarshalError>((0, Seq::empty()))
        } else {
            match unmarshal_spec(fields[i], bo, buf, offset, fds) {
                Err(e) => Err(e),
                Ok((n, v)) => if n < 0 || offset + n > buf.len() {
                    Ok((n, seq![v]))
                } else {
                    match unmarshal_fields(fields, i + 1, bo, buf, offset + n, fds) {
                        Err(e) => Err(e),
                        Ok((m, vs)) => Ok((n + m, seq![v] + vs)),
                    }
                },
            }
        },
{
    reveal(unmarshal_spec);
}

/// What reading a dict comes to: its head, then its entries within the
/// length that it claims.
pub proof fn lemma_unmarshal_dict(
    k: signature::Base,
    v: SpecType,
    bo: ByteOrder,
    buf: Seq<u8>,
    offset: int,
    fds: Seq<UnixFd>,
)
    ensures
        unmarshal_spec(SpecType::Dict(k, Box::new(v)), bo, buf, offset, fds) == match collection_head(
            bo,
            offset,
            buf,
            8,
        ) {
            Err((_, e)) => Err::<(int, SpecParam), UnmarshalError>(e),
            Ok((head, len)) => if offset < 0 || head < 4 || len < 0 || offset + head + len
                > buf.len() {
                Err(UnmarshalError::NotEnoughBytes)
            } else {
                match unmarshal_entries(
                    k,
                    v,
                    bo,
                    buf.subrange(0, offset + head + len),
                    offset + head,
                    fds,
                ) {
                    Err(e) => Err(e),
                    Ok(es) => Ok((head + len, SpecParam::Dict(k, v, es))),
                }
            },
        },
{
    reveal(unmarshal_spec);
}

/// What reading a struct or an array comes to.
pub proof fn lemma_unmarshal_containers(bo: ByteOrder, buf: Seq<u8>, offset: int, fds: Seq<UnixFd>)
    ensures
        forall|fields: Seq<SpecType>| #[trigger]
            unmarshal_spec(SpecType::Struct(fields), bo, buf, offset, fds) == match align_offset_spec(
                8,
                buf,
                offset,
            ) {
                Err(e) => Err::<(int, SpecParam), UnmarshalError>(e),
                Ok(padding) => match unmarshal_fields(fields, 0, bo, buf, offset + padding, fds) {
                    Err(e) => Err(e),
                    Ok((n, vs)) => Ok((padding + n, SpecParam::Struct(vs))),
                },
            },
        forall|elem: SpecType| #[trigger]
            unmarshal_spec(SpecType::Array(Box::new(elem)), bo, buf, offset, fds)
                == match collection_head(bo, offset, buf, elem.alignment()) {
                Err((_, e)) => Err::<(int, SpecParam), UnmarshalError>(e),
                Ok((head, len)) => if offset < 0 || head < 4 || len < 0 || offset + head + len
                    > buf.len() {
                    Err(UnmarshalError::NotEnoughBytes)
                } else {
                    match unmarshal_elems(
                        elem,
                        bo,
                        buf.subrange(0, offset + head + len),
                        offset + head,
                        fds,
                    ) {
                        Err(e) => Err(e),
                        Ok(vs) => Ok((head + len, SpecParam::Array(elem, vs))),
                    }
                },
            },
        forall|b: signature::Base| #[trigger]
            unmarshal_spec(SpecType::Base(b), bo, buf, offset, fds) == unmarshal_base_spec(
                b,
                bo,
                buf,
                offset,
                fds,
            ),
{
    reveal(unmarshal_spec);
}

/// What reading a variant comes to: its signature, which must hold one
/// type, then a value of that type.
pub proof fn lemma_unmarshal_variant(bo: ByteOrder, buf: Seq<u8>, offset: int, fds: Seq<UnixFd>)
    ensures
        unmarshal_spec(SpecType::Variant, bo, buf, offset, fds) == match unmarshal_signature_spec(
            rest(buf, offset),
        ) {
            Err(e) => Err::<(int, SpecParam), UnmarshalError>(e),
            Ok((n, s)) => match parse_description_spec(s) {
                Err(_) => Err(UnmarshalError::InvalidSignature),
                Ok(ts) => if ts.len() != 1 {
                    Err(UnmarshalError::WrongSignature)
                } else if n < 1 || offset + n > buf.len() {
                    Err(UnmarshalError::NotEnoughBytes)
                } else {
                    match unmarshal_spec(ts[0], bo, buf, offset + n, fds) {
                        Err(e) => Err(e),
                        Ok((m, v)) => Ok((n + m, SpecParam::Variant(ts[0], Box::new(v)))),
                    }
                },
            },
        },
{
    reveal(unmarshal_spec);
}

} // verus!
