//! Checks raw bytes against a signature without building any value.
//!
//! A proxy that only forwards messages can use this to make sure that what
//! it forwards is well formed.
use crate::params::valid_object_path;
use crate::params::validate_object_path;
use crate::signature;
use crate::signature::parse_description_spec;
use crate::signature::SpecType;
use crate::wire::errors::UnmarshalError;
use crate::wire::util;
use crate::wire::util::align_offset_spec;
use crate::wire::util::u32_of;
use crate::wire::util::unmarshal_signature_spec;
use crate::wire::util::unmarshal_str_spec;
use crate::ByteOrder;
use vstd::prelude::*;
use vstd::slice::slice_subrange;

verus! {

/// Either the number of bytes that the value takes, padding included, or
/// the position of the first fault and what it is.
pub type ValidationResult = Result<usize, (usize, UnmarshalError)>;

/// The mathematical form of a [`ValidationResult`].
pub type SpecValidation = Result<int, (int, UnmarshalError)>;

/// Whether a result of the validator is the one that the format calls for.
pub open spec fn same_validation(r: ValidationResult, s: SpecValidation) -> bool {
    match r {
        Ok(n) => s == Ok::<int, (int, UnmarshalError)>(n as int),
        Err((at, e)) => s == Err::<int, (int, UnmarshalError)>((at as int, e)),
    }
}

/// The bytes of `buf` from `offset` on.
pub open spec fn rest(buf: Seq<u8>, offset: int) -> Seq<u8> {
    buf.subrange(offset, buf.len() as int)
}

/// The width of a basic type whose values have a fixed number of bytes.
pub open spec fn fixed_size(sig: signature::Base) -> int {
    match sig {
        signature::Base::Byte => 1,
        signature::Base::Int16 | signature::Base::Uint16 => 2,
        signature::Base::Int32 | signature::Base::Uint32 | signature::Base::UnixFd
        | signature::Base::Boolean => 4,
        _ => 8,
    }
}

/// What the validator says of a value of a basic type at `offset`.
#[verifier::opaque]
pub open spec fn validate_base_spec(
    bo: ByteOrder,
    offset: int,
    buf: Seq<u8>,
    sig: signature::Base,
) -> SpecValidation {
    match align_offset_spec(sig.alignment(), buf, offset) {
        Err(e) => Err((offset, e)),
        Ok(padding) => {
            let start = offset + padding;
            match sig {
                signature::Base::String => match unmarshal_str_spec(bo, rest(buf, start)) {
                    Err(e) => Err((start, e)),
                    Ok((n, _)) => Ok(n + padding),
                },
                signature::Base::ObjectPath => match unmarshal_str_spec(bo, rest(buf, start)) {
                    Err(e) => Err((start, e)),
                    Ok((n, s)) => if valid_object_path(s) {
                        Ok(n + padding)
                    } else {
                        Err((start, UnmarshalError::InvalidObjectPath))
                    },
                },
                signature::Base::Signature => match unmarshal_signature_spec(rest(buf, start)) {
                    Err(e) => Err((start, e)),
                    Ok((n, s)) => if parse_description_spec(s) is Ok {
                        Ok(n + padding)
                    } else {
                        Err((offset, UnmarshalError::InvalidSignature))
                    },
                },
                signature::Base::Boolean => if buf.len() - start < 4 {
                    Err((start, UnmarshalError::NotEnoughBytes))
                } else if u32_of(bo, rest(buf, start)) > 1 {
                    Err((start, UnmarshalError::InvalidBoolean))
                } else {
                    Ok(4 + padding)
                },
                _ => if buf.len() - start < fixed_size(sig) {
                    Err((start, UnmarshalError::NotEnoughBytes))
                } else {
                    Ok(fixed_size(sig) + padding)
                },
            }
        },
    }
}

/// What the validator says of a value of type `sig` at `offset`: the bytes
/// that the value takes with its leading padding, or the first fault.
pub open spec fn validate_spec(bo: ByteOrder, offset: int, buf: Seq<u8>, sig: SpecType) -> SpecValidation
    decreases buf.len() - offset, sig, 0nat,
{
    match sig {
        SpecType::Base(b) => validate_base_spec(bo, offset, buf, b),
        SpecType::Array(elem) => match collection_head(bo, offset, buf, elem.alignment()) {
            Err(e) => Err(e),
            Ok((head, len)) => if elem.fixed_width() {
                if len % (elem.alignment() as int) != 0 {
                    Err((offset + head, UnmarshalError::NotEnoughBytes))
                } else {
                    Ok(head + len)
                }
            } else if offset < 0 || head < 4 || len < 0 || offset + head + len > buf.len() {
                Err((offset, UnmarshalError::NotEnoughBytes))
            } else {
                match validate_elems(
                    bo,
                    offset + head,
                    buf.subrange(0, offset + head + len),
                    *elem,
                ) {
                    Err(e) => Err(e),
                    Ok(_) => Ok(head + len),
                }
            },
        },
        SpecType::Dict(k, v) => match collection_head(bo, offset, buf, 8) {
            Err(e) => Err(e),
            Ok((head, len)) => if offset < 0 || head < 4 || len < 0 || offset + head + len > buf.len() {
                Err((offset, UnmarshalError::NotEnoughBytes))
            } else {
                match validate_entries(
                    bo,
                    offset + head,
                    buf.subrange(0, offset + head + len),
                    k,
                    *v,
                ) {
                    Err(e) => Err(e),
                    Ok(_) => Ok(head + len),
                }
            },
        },
        SpecType::Struct(fields) => match align_offset_spec(8, buf, offset) {
            Err(e) => Err((offset, e)),
            Ok(padding) => match validate_fields(bo, offset + padding, buf, fields, 0) {
                Err(e) => Err(e),
                Ok(n) => Ok(padding + n),
            },
        },
        SpecType::Variant => match unmarshal_signature_spec(rest(buf, offset)) {
            Err(e) => Err((offset, e)),
            Ok((n, s)) => match parse_description_spec(s) {
                Err(_) => Err((offset, UnmarshalError::InvalidSignature)),
                Ok(ts) => if ts.len() != 1 {
                    Err((offset, UnmarshalError::WrongSignature))
                } else if n < 1 || offset + n > buf.len() {
                    Err((offset, UnmarshalError::NotEnoughBytes))
                } else {
                    match validate_spec(bo, offset + n, buf, ts[0]) {
                        Err(e) => Err(e),
                        Ok(m) => Ok(n + m),
                    }
                },
            },
        },
    }
}

/// The head of an array or dict at `offset`: the bytes up to its first
/// element (padding, length field, padding of the first element) and the
/// length that it claims for its elements.
#[verifier::opaque]
pub open spec fn collection_head(bo: ByteOrder, offset: int, buf: Seq<u8>, align: nat) -> Result<
    (int, int),
    (int, UnmarshalError),
> {
    match align_offset_spec(4, buf, offset) {
        Err(e) => Err((offset, e)),
        Ok(padding) => {
            let at_len = offset + padding;
            let at_body = at_len + 4;
            if buf.len() - at_len < 4 {
                Err((at_len, UnmarshalError::NotEnoughBytes))
            } else {
                let len = u32_of(bo, rest(buf, at_len)) as int;
                if buf.len() - at_body < len {
                    Err((at_body, UnmarshalError::NotEnoughBytesForCollection))
                } else {
                    match align_offset_spec(align, buf, at_body) {
                        Err(e) => Err((at_body, e)),
                        Ok(first) => if buf.len() - (at_body + first) < len {
                            Err((at_body + first, UnmarshalError::NotEnoughBytesForCollection))
                        } else {
                            Ok((padding + 4 + first, len))
                        },
                    }
                }
            }
        },
    }
}

/// What the validator says of the elements of an array that fill `buf`
/// from `offset` to its end.
pub open spec fn validate_elems(bo: ByteOrder, offset: int, buf: Seq<u8>, elem: SpecType) -> Result<
    (),
    (int, UnmarshalError),
>
    decreases buf.len() - offset, elem, 1nat,
{
    if offset >= buf.len() {
        Ok(())
    } else {
        match validate_spec(bo, offset, buf, elem) {
            Err(e) => Err(e),
            Ok(n) => if n < 1 || offset + n > buf.len() {
                Ok(())
            } else {
                validate_elems(bo, offset + n, buf, elem)
            },
        }
    }
}

/// What the validator says of the entries of a dict that fill `buf` from
/// `offset` to its end.
pub open spec fn validate_entries(
    bo: ByteOrder,
    offset: int,
    buf: Seq<u8>,
    k: signature::Base,
    v: SpecType,
) -> Result<(), (int, UnmarshalError)>
    decreases buf.len() - offset, v, 1nat,
{
    if offset >= buf.len() {
        Ok(())
    } else {
        match align_offset_spec(8, buf, offset) {
            Err(e) => Err((offset, e)),
            Ok(padding) => match validate_base_spec(bo, offset + padding, buf, k) {
                Err(e) => Err(e),
                Ok(key) => if key < 1 || offset + padding + key > buf.len() {
                    Ok(())
                } else {
                    match validate_spec(bo, offset + padding + key, buf, v) {
                        Err(e) => Err(e),
                        Ok(val) => if val < 0 || offset + padding + key + val > buf.len() {
                            Ok(())
                        } else {
                            validate_entries(bo, offset + padding + key + val, buf, k, v)
                        },
                    }
                },
            },
        }
    }
}

/// What the validator says of the members of a struct from member `i` on,
/// the first of them at `offset`: the bytes that they take together.
pub open spec fn validate_fields(
    bo: ByteOrder,
    offset: int,
    buf: Seq<u8>,
    fields: Seq<SpecType>,
    i: int,
) -> SpecValidation
    decreases buf.len() - offset, fields, fields.len() - i,
{
    if i < 0 || i >= fields.len() {
        Ok(0)
    } else {
        match validate_spec(bo, offset, buf, fields[i]) {
            Err(e) => Err(e),
            Ok(n) => if n < 0 || offset + n > buf.len() {
                Ok(n)
            } else {
                match validate_fields(bo, offset + n, buf, fields, i + 1) {
                    Err(e) => Err(e),
                    Ok(m) => Ok(n + m),
                }
            },
        }
    }
}

/// Checks the bytes of `raw` from `offset` on against one type.
pub fn validate_marshalled(
    byteorder: ByteOrder,
    offset: usize,
    raw: &[u8],
    sig: &signature::Type,
) -> (r: ValidationResult)
    requires
        offset <= raw@.len(),
        sig@.wf(),
    ensures
        same_validation(r, validate_spec(byteorder, offset as int, raw@, sig@)),
        r matches Ok(n) ==> 1 <= n && offset + n <= raw@.len(),
    decreases raw@.len() - offset, sig,
{
    match sig {
        signature::Type::Base(b) => validate_marshalled_base(byteorder, offset, raw, *b),
        signature::Type::Container(c) => validate_marshalled_container(byteorder, offset, raw, c),
    }
}

fn fixed_size_of(sig: signature::Base) -> (n: usize)
    ensures
        n == fixed_size(sig),
{
    match sig {
        signature::Base::Byte => 1,
        signature::Base::Int16 | signature::Base::Uint16 => 2,
        signature::Base::Int32 | signature::Base::Uint32 | signature::Base::UnixFd
        | signature::Base::Boolean => 4,
        _ => 8,
    }
}

/// Checks the bytes of `buf` from `offset` on against one basic type.
pub fn validate_marshalled_base(
    byteorder: ByteOrder,
    offset: usize,
    buf: &[u8],
    sig: signature::Base,
) -> (r: ValidationResult)
    requires
        offset <= buf@.len(),
    ensures
        same_validation(r, validate_base_spec(byteorder, offset as int, buf@, sig)),
        r matches Ok(n) ==> 1 <= n && offset + n <= buf@.len(),
{
    reveal(validate_base_spec);
    let total = buf.len();
    let padding = match util::align_offset(sig.get_alignment(), buf, offset) {
        Ok(p) => p,
        Err(e) => {
            return Err((offset, e));
        },
    };
    let start = offset + padding;
    let tail = slice_subrange(buf, start, buf.len());
    match sig {
        signature::Base::String => {
            match util::unmarshal_str(byteorder, tail) {
                Ok((bytes, _)) => Ok(bytes + padding),
                Err(e) => Err((start, e)),
            }
        },
        signature::Base::ObjectPath => {
            match util::unmarshal_str(byteorder, tail) {
                Ok((bytes, path)) => {
                    if validate_object_path(path).is_err() {
                        return Err((start, UnmarshalError::InvalidObjectPath));
                    }
                    Ok(bytes + padding)
                },
                Err(e) => Err((start, e)),
            }
        },
        signature::Base::Signature => {
            match util::unmarshal_signature(tail) {
                Ok((bytes, text)) => {
                    if crate::params::validate_signature(text).is_err() {
                        return Err((offset, UnmarshalError::InvalidSignature));
                    }
                    Ok(bytes + padding)
                },
                Err(e) => Err((start, e)),
            }
        },
        signature::Base::Boolean => {
            match util::parse_u32(tail, byteorder) {
                Ok((_, val)) => {
                    if val > 1 {
                        Err((start, UnmarshalError::InvalidBoolean))
                    } else {
                        Ok(4 + padding)
                    }
                },
                Err(e) => Err((start, e)),
            }
        },
        _ => {
            let size = fixed_size_of(sig);
            if buf.len() - start < size {
                return Err((start, UnmarshalError::NotEnoughBytes));
            }
            Ok(size + padding)
        },
    }
}

pub(crate) fn collection_head_at(byteorder: ByteOrder, offset: usize, buf: &[u8], align: usize) -> (r: Result<
    (usize, usize),
    (usize, UnmarshalError),
>)
    requires
        offset <= buf@.len(),
        0 < align <= 8,
    ensures
        match r {
            Ok((head, len)) => collection_head(byteorder, offset as int, buf@, align as nat)
                == Ok::<(int, int), (int, UnmarshalError)>((head as int, len as int)) && head >= 4
                && offset + head + len <= buf@.len(),
            Err((at, e)) => collection_head(byteorder, offset as int, buf@, align as nat) == Err::<
                (int, int),
                (int, UnmarshalError),
            >((at as int, e)),
        },
{
    reveal(collection_head);
    let total = buf.len();
    let padding = match util::align_offset(4, buf, offset) {
        Ok(p) => p,
        Err(e) => {
            return Err((offset, e));
        },
    };
    let at_len = offset + padding;
    let len = match util::parse_u32(slice_subrange(buf, at_len, buf.len()), byteorder) {
        Ok((_, len)) => len as usize,
        Err(e) => {
            return Err((at_len, e));
        },
    };
    let at_body = at_len + 4;
    if buf.len() - at_body < len {
        return Err((at_body, UnmarshalError::NotEnoughBytesForCollection));
    }
    let first = match util::align_offset(align, buf, at_body) {
        Ok(p) => p,
        Err(e) => {
            return Err((at_body, e));
        },
    };
    if buf.len() - (at_body + first) < len {
        return Err((at_body + first, UnmarshalError::NotEnoughBytesForCollection));
    }
    Ok((padding + 4 + first, len))
}

/// Checks the bytes of `buf` from `offset` on against one container type.
pub fn validate_marshalled_container(
    byteorder: ByteOrder,
    offset: usize,
    buf: &[u8],
    sig: &signature::Container,
) -> (r: ValidationResult)
    requires
        offset <= buf@.len(),
        sig@.wf(),
    ensures
        same_validation(r, validate_spec(byteorder, offset as int, buf@, sig@)),
        r matches Ok(n) ==> 1 <= n && offset + n <= buf@.len(),
    decreases buf@.len() - offset, sig,
{
    match sig {
        signature::Container::Array(elem_sig) => validate_array(byteorder, offset, buf, elem_sig),
        signature::Container::Dict(key_sig, val_sig) => validate_dict(
            byteorder,
            offset,
            buf,
            *key_sig,
            val_sig,
        ),
        signature::Container::Struct(sigs) => validate_struct(byteorder, offset, buf, sigs),
        signature::Container::Variant => {
            let total = buf.len();
            let tail = slice_subrange(buf, offset, total);
            let (sig_bytes, sig_str) = match util::unmarshal_signature(tail) {
                Ok(r) => r,
                Err(e) => {
                    return Err((offset, e));
                },
            };
            let mut types = match signature::Type::parse_description(sig_str) {
                Ok(t) => t,
                Err(_) => {
                    return Err((offset, UnmarshalError::InvalidSignature));
                },
            };
            proof {
                signature::lemma_parse_description_wf(sig_str@);
                signature::lemma_types_model(types@, types@.len());
            }
            if types.len() != 1 {
                // a variant holds exactly one value
                return Err((offset, UnmarshalError::WrongSignature));
            }
            let inner = types.remove(0);
            let bytes = validate_marshalled(byteorder, offset + sig_bytes, buf, &inner)?;
            Ok(sig_bytes + bytes)
        },
    }
}

#[verifier::loop_isolation(false)]
fn validate_array(
    byteorder: ByteOrder,
    offset: usize,
    buf: &[u8],
    elem_sig: &signature::Type,
) -> (r: ValidationResult)
    requires
        offset <= buf@.len(),
        elem_sig@.wf(),
    ensures
        same_validation(
            r,
            validate_spec(byteorder, offset as int, buf@, SpecType::Array(Box::new(elem_sig@))),
        ),
        r matches Ok(n) ==> 1 <= n && offset + n <= buf@.len(),
    decreases buf@.len() - offset, elem_sig,
{
    let total = buf.len();
    let (head, len) = collection_head_at(byteorder, offset, buf, elem_sig.get_alignment())?;
    let start = offset + head;
    if elem_sig.bytes_always_valid() {
        // every run of bytes is a value: only the count has to fit
        if len % elem_sig.get_alignment() != 0 {
            return Err((start, UnmarshalError::NotEnoughBytes));
        }
    } else {
        // the elements see nothing behind the end that the array claims
        let inner = slice_subrange(buf, 0, start + len);
        let mut used: usize = 0;
        while used < len
            invariant
                used <= len,
                start + len == inner@.len(),
                inner@.len() <= total,
                total == buf@.len(),
                offset < start,
                elem_sig@.wf(),
                validate_elems(byteorder, start as int, inner@, elem_sig@) == validate_elems(
                    byteorder,
                    start + used,
                    inner@,
                    elem_sig@,
                ),
            decreases len - used,
        {
            let bytes = validate_marshalled(byteorder, start + used, inner, elem_sig)?;
            used += bytes;
        }
    }
    Ok(head + len)
}

#[verifier::loop_isolation(false)]
fn validate_dict(
    byteorder: ByteOrder,
    offset: usize,
    buf: &[u8],
    key_sig: signature::Base,
    val_sig: &signature::Type,
) -> (r: ValidationResult)
    requires
        offset <= buf@.len(),
        val_sig@.wf(),
    ensures
        same_validation(
            r,
            validate_spec(
                byteorder,
                offset as int,
                buf@,
                SpecType::Dict(key_sig, Box::new(val_sig@)),
            ),
        ),
        r matches Ok(n) ==> 1 <= n && offset + n <= buf@.len(),
    decreases buf@.len() - offset, val_sig,
{
    let total = buf.len();
    let (head, len) = collection_head_at(byteorder, offset, buf, 8)?;
    let start = offset + head;
    // the entries see nothing behind the end that the dict claims
    let inner = slice_subrange(buf, 0, start + len);
    let mut used: usize = 0;
    while used < len
        invariant
            used <= len,
            start + len == inner@.len(),
            inner@.len() <= total,
            total == buf@.len(),
            offset < start,
            val_sig@.wf(),
            validate_entries(byteorder, start as int, inner@, key_sig, val_sig@)
                == validate_entries(byteorder, start + used, inner@, key_sig, val_sig@),
        decreases len - used,
    {
        let at = start + used;
        let padding = match util::align_offset(8, inner, at) {
            Ok(p) => p,
            Err(e) => {
                return Err((at, e));
            },
        };
        let key = validate_marshalled_base(byteorder, at + padding, inner, key_sig)?;
        let val = validate_marshalled(byteorder, at + padding + key, inner, val_sig)?;
        used = used + padding + key + val;
    }
    Ok(head + len)
}

/// Checks the bytes of `buf` from `offset` on against the types `sigs`,
/// one value after the other.
#[verifier::loop_isolation(false)]
pub fn validate_run(
    byteorder: ByteOrder,
    offset: usize,
    buf: &[u8],
    sigs: &Vec<signature::Type>,
) -> (r: ValidationResult)
    requires
        offset <= buf@.len(),
        signature::types_wf(signature::types_model(sigs@, sigs@.len())),
    ensures
        same_validation(
            r,
            validate_fields(
                byteorder,
                offset as int,
                buf@,
                signature::types_model(sigs@, sigs@.len()),
                0,
            ),
        ),
        r matches Ok(n) ==> offset + n <= buf@.len() && (sigs@.len() > 0 ==> n >= 1),
    decreases buf@.len() - offset, sigs,
{
    let total = buf.len();
    let ghost fields = signature::types_model(sigs@, sigs@.len());
    proof {
        signature::lemma_types_model(sigs@, sigs@.len());
    }
    let mut used: usize = 0;
    let mut i: usize = 0;
    while i < sigs.len()
        invariant
            i <= sigs.len(),
            offset + used <= total,
            i > 0 ==> used >= 1,
            match validate_fields(byteorder, offset + used, buf@, fields, i as int) {
                Ok(m) => validate_fields(byteorder, offset as int, buf@, fields, 0) == Ok::<
                    int,
                    (int, UnmarshalError),
                >(used + m),
                Err(e) => validate_fields(byteorder, offset as int, buf@, fields, 0) == Err::<
                    int,
                    (int, UnmarshalError),
                >(e),
            },
        decreases sigs.len() - i,
    {
        let field_sig = &sigs[i];
        proof {
            signature::lemma_types_wf_index(fields, i as int);
        }
        let bytes = validate_marshalled(byteorder, offset + used, buf, field_sig)?;
        used += bytes;
        i += 1;
    }
    Ok(used)
}

fn validate_struct(
    byteorder: ByteOrder,
    offset: usize,
    buf: &[u8],
    sigs: &signature::StructTypes,
) -> (r: ValidationResult)
    requires
        offset <= buf@.len(),
        SpecType::Struct(sigs@).wf(),
    ensures
        same_validation(
            r,
            validate_spec(byteorder, offset as int, buf@, SpecType::Struct(sigs@)),
        ),
        r matches Ok(n) ==> 1 <= n && offset + n <= buf@.len(),
    decreases buf@.len() - offset, sigs,
{
    let total = buf.len();
    let padding = match util::align_offset(8, buf, offset) {
        Ok(p) => p,
        Err(e) => {
            return Err((offset, e));
        },
    };
    let used = validate_run(byteorder, offset + padding, buf, &sigs.0)?;
    Ok(padding + used)
}

/// What checking the elements, the entries and the members comes to, one
/// of them at a time.
pub proof fn lemma_validate_steps(bo: ByteOrder, offset: int, buf: Seq<u8>)
    ensures
        forall|elem: SpecType| #[trigger]
            validate_elems(bo, offset, buf, elem) == if offset >= buf.len() {
                Ok::<(), (int, UnmarshalError)>(())
            } else {
                match validate_spec(bo, offset, buf, elem) {
                    Err(e) => Err(e),
                    Ok(n) => if n < 1 || offset + n > buf.len() {
                        Ok(())
                    } else {
                        validate_elems(bo, offset + n, buf, elem)
                    },
                }
            },
        forall|k: signature::Base, v: SpecType| #[trigger]
            validate_entries(bo, offset, buf, k, v) == if offset >= buf.len() {
                Ok::<(), (int, UnmarshalError)>(())
            } else {
                match align_offset_spec(8, buf, offset) {
                    Err(e) => Err((offset, e)),
                    Ok(padding) => match validate_base_spec(bo, offset + padding, buf, k) {
                        Err(e) => Err(e),
                        Ok(key) => if key < 1 || offset + padding + key > buf.len() {
                            Ok(())
                        } else {
                            match validate_spec(bo, offset + padding + key, buf, v) {
                                Err(e) => Err(e),
                                Ok(val) => if val < 0 || offset + padding + key + val > buf.len() {
                                    Ok(())
                                } else {
                                    validate_entries(bo, offset + padding + key + val, buf, k, v)
                                },
                            }
                        },
                    },
                }
            },
        forall|fields: Seq<SpecType>, i: int| #[trigger]
            validate_fields(bo, offset, buf, fields, i) == if i < 0 || i >= fields.len() {
                Ok::<int, (int, UnmarshalError)>(0)
            } else {
                match validate_spec(bo, offset, buf, fields[i]) {
                    Err(e) => Err(e),
                    Ok(n) => if n < 0 || offset + n > buf.len() {
                        Ok(n)
                    } else {
                        match validate_fields(bo, offset + n, buf, fields, i + 1) {
                            Err(e) => Err(e),
                            Ok(m) => Ok(n + m),
                        }
                    },
                }
            },
{
}

} // verus!
