//! Reading values of the container types, and values of any type.
use crate::params;
use crate::params::entries_model;
use crate::params::params_model;
use crate::params::SpecParam;
use crate::signature;
use crate::signature::SpecType;
use crate::wire::errors::UnmarshalError;
use crate::wire::unmarshal::base::unmarshal_base;
use crate::wire::unmarshal::lemma_unmarshal_elems_step;
use crate::wire::unmarshal::lemma_unmarshal_entries_step;
use crate::wire::unmarshal::lemma_unmarshal_fields_step;
use crate::wire::unmarshal::unmarshal_elems;
use crate::wire::unmarshal::unmarshal_entries;
use crate::wire::unmarshal::unmarshal_entry;
use crate::wire::unmarshal::unmarshal_fields;
use crate::wire::unmarshal::unmarshal_spec;
use crate::wire::unmarshal::UnmarshalContext;
use crate::wire::util;
use crate::wire::util::UnmarshalResult;
use crate::wire::validate_raw::collection_head_at;
use crate::wire::UnixFd;
use crate::ByteOrder;
use vstd::prelude::*;
use vstd::slice::slice_subrange;

verus! {

/// Reads a value of type `sig` at the cursor.
pub fn unmarshal_with_sig(sig: &signature::Type, ctx: &UnmarshalContext) -> (r: UnmarshalResult<
    params::Param,
>)
    requires
        ctx.wf(),
        sig@.wf(),
    ensures
        match r {
            Ok((n, v)) => ctx.read(sig@) == Ok::<(int, SpecParam), UnmarshalError>(
                (n as int, v@),
            ) && 1 <= n && ctx.offset + n <= ctx.buf@.len(),
            Err(e) => ctx.read(sig@) == Err::<(int, SpecParam), UnmarshalError>(e),
        },
    decreases ctx.buf@.len() - ctx.offset, sig,
{
    match sig {
        signature::Type::Base(b) => {
            proof {
                reveal(unmarshal_spec);
            }
            let (n, v) = unmarshal_base(*b, ctx)?;
            Ok((n, params::Param::Base(v)))
        },
        signature::Type::Container(c) => {
            let (n, v) = unmarshal_container(c, ctx)?;
            Ok((n, params::Param::Container(v)))
        },
    }
}

/// Reads a value of the container type `sig` at the cursor.
pub fn unmarshal_container(sig: &signature::Container, ctx: &UnmarshalContext) -> (r:
    UnmarshalResult<params::Container>)
    requires
        ctx.wf(),
        sig@.wf(),
    ensures
        match r {
            Ok((n, v)) => ctx.read(sig@) == Ok::<(int, SpecParam), UnmarshalError>(
                (n as int, v@),
            ) && 1 <= n && ctx.offset + n <= ctx.buf@.len(),
            Err(e) => ctx.read(sig@) == Err::<(int, SpecParam), UnmarshalError>(e),
        },
    decreases ctx.buf@.len() - ctx.offset, sig,
{
    match sig {
        signature::Container::Array(elem_sig) => {
            let (n, values) = unmarshal_array(elem_sig, ctx)?;
            Ok(
                (
                    n,
                    params::Container::Array(
                        params::Array { element_sig: elem_sig.duplicate(), values },
                    ),
                ),
            )
        },
        signature::Container::Dict(key_sig, val_sig) => {
            let (n, map) = unmarshal_dict(*key_sig, val_sig, ctx)?;
            Ok(
                (
                    n,
                    params::Container::Dict(
                        params::Dict { key_sig: *key_sig, value_sig: val_sig.duplicate(), map },
                    ),
                ),
            )
        },
        signature::Container::Struct(sigs) => {
            let (n, fields) = unmarshal_struct(sigs, ctx)?;
            Ok((n, params::Container::Struct(fields)))
        },
        signature::Container::Variant => {
            proof {
                reveal(unmarshal_spec);
            }
            let total = ctx.buf.len();
            let tail = slice_subrange(ctx.buf, ctx.offset, total);
            let (sig_bytes, sig_str) = util::unmarshal_signature(tail)?;
            let mut types = match signature::Type::parse_description(sig_str) {
                Ok(t) => t,
                Err(_) => {
                    return Err(UnmarshalError::InvalidSignature);
                },
            };
            proof {
                signature::lemma_parse_description_wf(sig_str@);
                signature::lemma_types_model(types@, types@.len());
            }
            if types.len() != 1 {
                // a variant holds exactly one value
                return Err(UnmarshalError::WrongSignature);
            }
            let inner = types.remove(0);
            let (bytes, value) = unmarshal_with_sig(&inner, &ctx.advanced(sig_bytes))?;
            Ok(
                (
                    sig_bytes + bytes,
                    params::Container::Variant(Box::new(params::Variant { sig: inner, value })),
                ),
            )
        },
    }
}

#[verifier::loop_isolation(false)]
fn unmarshal_array(elem_sig: &signature::Type, ctx: &UnmarshalContext) -> (r: UnmarshalResult<
    Vec<params::Param>,
>)
    requires
        ctx.wf(),
        elem_sig@.wf(),
    ensures
        match r {
            Ok((n, vs)) => ctx.read(SpecType::Array(Box::new(elem_sig@))) == Ok::<
                (int, SpecParam),
                UnmarshalError,
            >((n as int, SpecParam::Array(elem_sig@, params_model(vs@, vs@.len())))) && 1 <= n
                && ctx.offset + n <= ctx.buf@.len(),
            Err(e) => ctx.read(SpecType::Array(Box::new(elem_sig@))) == Err::<
                (int, SpecParam),
                UnmarshalError,
            >(e),
        },
    decreases ctx.buf@.len() - ctx.offset, elem_sig,
{
    proof {
        reveal(unmarshal_spec);
    }
    let total = ctx.buf.len();
    let (head, len) = match collection_head_at(
        ctx.byteorder,
        ctx.offset,
        ctx.buf,
        elem_sig.get_alignment(),
    ) {
        Ok(r) => r,
        Err((_, e)) => {
            return Err(e);
        },
    };
    let start = ctx.offset + head;
    // the elements see nothing behind the end that the array claims
    let inner = slice_subrange(ctx.buf, 0, start + len);
    let ghost wanted = unmarshal_elems(elem_sig@, ctx.byteorder, inner@, start as int, ctx.fds@);
    let mut values: Vec<params::Param> = Vec::new();
    let mut used: usize = 0;
    while used < len
        invariant
            used <= len,
            wanted == match unmarshal_elems(
                elem_sig@,
                ctx.byteorder,
                inner@,
                start + used,
                ctx.fds@,
            ) {
                Ok(more) => Ok::<Seq<SpecParam>, UnmarshalError>(
                    params_model(values@, values@.len()) + more,
                ),
                Err(e) => Err(e),
            },
        decreases len - used,
    {
        let at = UnmarshalContext {
            byteorder: ctx.byteorder,
            buf: inner,
            offset: start + used,
            fds: ctx.fds,
        };
        proof {
            lemma_unmarshal_elems_step(
                elem_sig@,
                ctx.byteorder,
                inner@,
                start + used,
                ctx.fds@,
            );
        }
        let (bytes, value) = unmarshal_with_sig(elem_sig, &at)?;
        proof {
            params::lemma_params_model_push(values@, value);
            let more = unmarshal_elems(
                elem_sig@,
                ctx.byteorder,
                inner@,
                start + used + bytes,
                ctx.fds@,
            );
            if let Ok(m) = more {
                assert(params_model(values@, values@.len()) + (seq![value@] + m)
                    =~= params_model(values@, values@.len()).push(value@) + m);
            }
        }
        values.push(value);
        used += bytes;
    }
    proof {
        lemma_unmarshal_elems_step(elem_sig@, ctx.byteorder, inner@, start + used, ctx.fds@);
        assert(params_model(values@, values@.len()) + Seq::<SpecParam>::empty() =~= params_model(
            values@,
            values@.len(),
        ));
    }
    Ok((head + len, values))
}

/// Reads one entry of a dict at the cursor: padding to 8, the key, the value.
fn unmarshal_entry_at(
    key_sig: signature::Base,
    val_sig: &signature::Type,
    ctx: &UnmarshalContext,
) -> (r: UnmarshalResult<(params::Param, params::Param)>)
    requires
        ctx.wf(),
        val_sig@.wf(),
    ensures
        match r {
            Ok((n, entry)) => unmarshal_entry(
                key_sig,
                val_sig@,
                ctx.byteorder,
                ctx.buf@,
                ctx.offset as int,
                ctx.fds@,
            ) == Ok::<(int, (SpecParam, SpecParam)), UnmarshalError>(
                (n as int, (entry.0@, entry.1@)),
            ) && 1 <= n && ctx.offset + n <= ctx.buf@.len(),
            Err(e) => unmarshal_entry(
                key_sig,
                val_sig@,
                ctx.byteorder,
                ctx.buf@,
                ctx.offset as int,
                ctx.fds@,
            ) == Err::<(int, (SpecParam, SpecParam)), UnmarshalError>(e),
        },
    decreases ctx.buf@.len() - ctx.offset, val_sig, 0nat,
{
    proof {
        crate::wire::unmarshal::lemma_unmarshal_entry(
            key_sig,
            val_sig@,
            ctx.byteorder,
            ctx.buf@,
            ctx.offset as int,
            ctx.fds@,
        );
    }
    let total = ctx.buf.len();
    let padding = util::align_offset(8, ctx.buf, ctx.offset)?;
    let (key_bytes, key) = unmarshal_base(key_sig, &ctx.advanced(padding))?;
    let (val_bytes, val) = unmarshal_with_sig(val_sig, &ctx.advanced(padding + key_bytes))?;
    Ok((padding + key_bytes + val_bytes, (params::Param::Base(key), val)))
}

/// Reads the entries of a dict that fill the payload from the cursor to its end.
fn unmarshal_entries_at(
    key_sig: signature::Base,
    val_sig: &signature::Type,
    ctx: &UnmarshalContext,
) -> (r: Result<params::DictMap, UnmarshalError>)
    requires
        ctx.wf(),
        val_sig@.wf(),
    ensures
        match r {
            Ok(es) => unmarshal_entries(
                key_sig,
                val_sig@,
                ctx.byteorder,
                ctx.buf@,
                ctx.offset as int,
                ctx.fds@,
            ) == Ok::<Seq<(SpecParam, SpecParam)>, UnmarshalError>(entries_model(es@, es@.len())),
            Err(e) => unmarshal_entries(
                key_sig,
                val_sig@,
                ctx.byteorder,
                ctx.buf@,
                ctx.offset as int,
                ctx.fds@,
            ) == Err::<Seq<(SpecParam, SpecParam)>, UnmarshalError>(e),
        },
    decreases ctx.buf@.len() - ctx.offset, val_sig, 1nat,
{
    let total = ctx.buf.len();
    let ghost wanted = unmarshal_entries(
        key_sig,
        val_sig@,
        ctx.byteorder,
        ctx.buf@,
        ctx.offset as int,
        ctx.fds@,
    );
    let mut map: params::DictMap = Vec::new();
    let ghost mut done: Seq<(SpecParam, SpecParam)> = Seq::empty();
    let mut at: usize = ctx.offset;
    while at < total
        invariant
            ctx.offset <= at <= total,
            total == ctx.buf@.len(),
            val_sig@.wf(),
            wanted == unmarshal_entries(
                key_sig,
                val_sig@,
                ctx.byteorder,
                ctx.buf@,
                ctx.offset as int,
                ctx.fds@,
            ),
            done == entries_model(map@, map@.len()),
            wanted == match unmarshal_entries(
                key_sig,
                val_sig@,
                ctx.byteorder,
                ctx.buf@,
                at as int,
                ctx.fds@,
            ) {
                Ok(more) => Ok::<Seq<(SpecParam, SpecParam)>, UnmarshalError>(done + more),
                Err(e) => Err(e),
            },
        decreases total - at,
    {
        proof {
            lemma_unmarshal_entries_step(
                key_sig,
                val_sig@,
                ctx.byteorder,
                ctx.buf@,
                at as int,
                ctx.fds@,
            );
        }
        let (bytes, entry) = unmarshal_entry_at(key_sig, val_sig, &ctx.advanced(at - ctx.offset))?;
        let (key, val) = entry;
        proof {
            let more = unmarshal_entries(
                key_sig,
                val_sig@,
                ctx.byteorder,
                ctx.buf@,
                at + bytes,
                ctx.fds@,
            );
            let pair = (key@, val@);
            if let Ok(m) = more {
                assert(done + (seq![pair] + m) =~= done.push(pair) + m);
            }
            assert(entries_model(map@.push((key, val)), map@.len() + 1) == done.push(pair)) by {
                params::lemma_entries_model_push(map@, key, val);
            }
            done = done.push(pair);
        }
        map.push((key, val));
        at += bytes;
    }
    proof {
        lemma_unmarshal_entries_step(
            key_sig,
            val_sig@,
            ctx.byteorder,
            ctx.buf@,
            at as int,
            ctx.fds@,
        );
        assert(done + Seq::<(SpecParam, SpecParam)>::empty() =~= done);
    }
    Ok(map)
}

fn unmarshal_dict(key_sig: signature::Base, val_sig: &signature::Type, ctx: &UnmarshalContext) -> (r:
    UnmarshalResult<params::DictMap>)
    requires
        ctx.wf(),
        val_sig@.wf(),
    ensures
        match r {
            Ok((n, es)) => ctx.read(SpecType::Dict(key_sig, Box::new(val_sig@))) == Ok::<
                (int, SpecParam),
                UnmarshalError,
            >((n as int, SpecParam::Dict(key_sig, val_sig@, entries_model(es@, es@.len()))))
                && 1 <= n && ctx.offset + n <= ctx.buf@.len(),
            Err(e) => ctx.read(SpecType::Dict(key_sig, Box::new(val_sig@))) == Err::<
                (int, SpecParam),
                UnmarshalError,
            >(e),
        },
    decreases ctx.buf@.len() - ctx.offset, val_sig, 2nat,
{
    proof {
        crate::wire::unmarshal::lemma_unmarshal_dict(
            key_sig,
            val_sig@,
            ctx.byteorder,
            ctx.buf@,
            ctx.offset as int,
            ctx.fds@,
        );
    }
    let total = ctx.buf.len();
    let (head, len) = match collection_head_at(ctx.byteorder, ctx.offset, ctx.buf, 8) {
        Ok(r) => r,
        Err((_, e)) => {
            return Err(e);
        },
    };
    let start = ctx.offset + head;
    // the entries see nothing behind the end that the dict claims
    let inner = UnmarshalContext {
        byteorder: ctx.byteorder,
        buf: slice_subrange(ctx.buf, 0, start + len),
        offset: start,
        fds: ctx.fds,
    };
    let map = unmarshal_entries_at(key_sig, val_sig, &inner)?;
    Ok((head + len, map))
}

/// Reads the values of the types `sigs` from type `from` on, one after the
/// other from the cursor on.
#[verifier::loop_isolation(false)]
pub fn unmarshal_run(sigs: &Vec<signature::Type>, ctx: &UnmarshalContext) -> (r: UnmarshalResult<
    Vec<params::Param>,
>)
    requires
        ctx.wf(),
        signature::types_wf(signature::types_model(sigs@, sigs@.len())),
    ensures
        match r {
            Ok((n, vs)) => unmarshal_fields(
                signature::types_model(sigs@, sigs@.len()),
                0,
                ctx.byteorder,
                ctx.buf@,
                ctx.offset as int,
                ctx.fds@,
            ) == Ok::<(int, Seq<SpecParam>), UnmarshalError>(
                (n as int, params_model(vs@, vs@.len())),
            ) && ctx.offset + n <= ctx.buf@.len() && (sigs@.len() > 0 ==> n >= 1),
            Err(e) => unmarshal_fields(
                signature::types_model(sigs@, sigs@.len()),
                0,
                ctx.byteorder,
                ctx.buf@,
                ctx.offset as int,
                ctx.fds@,
            ) == Err::<(int, Seq<SpecParam>), UnmarshalError>(e),
        },
    decreases ctx.buf@.len() - ctx.offset, sigs,
{
    let total = ctx.buf.len();
    let ghost fields = signature::types_model(sigs@, sigs@.len());
    let ghost wanted = unmarshal_fields(
        fields,
        0,
        ctx.byteorder,
        ctx.buf@,
        ctx.offset as int,
        ctx.fds@,
    );
    proof {
        signature::lemma_types_model(sigs@, sigs@.len());
    }
    let mut values: Vec<params::Param> = Vec::new();
    let mut used: usize = 0;
    let mut i: usize = 0;
    while i < sigs.len()
        invariant
            i <= sigs.len(),
            ctx.offset + used <= total,
            i > 0 ==> used >= 1,
            wanted == match unmarshal_fields(
                fields,
                i as int,
                ctx.byteorder,
                ctx.buf@,
                ctx.offset + used,
                ctx.fds@,
            ) {
                Ok((m, more)) => Ok::<(int, Seq<SpecParam>), UnmarshalError>(
                    (used + m, params_model(values@, values@.len()) + more),
                ),
                Err(e) => Err(e),
            },
        decreases sigs.len() - i,
    {
        let field_sig = &sigs[i];
        proof {
            signature::lemma_types_wf_index(fields, i as int);
            lemma_unmarshal_fields_step(
                fields,
                i as int,
                ctx.byteorder,
                ctx.buf@,
                ctx.offset + used,
                ctx.fds@,
            );
        }
        let (bytes, value) = unmarshal_with_sig(field_sig, &ctx.advanced(used))?;
        proof {
            params::lemma_params_model_push(values@, value);
            let more = unmarshal_fields(
                fields,
                i + 1,
                ctx.byteorder,
                ctx.buf@,
                ctx.offset + used + bytes,
                ctx.fds@,
            );
            if let Ok((m, vs)) = more {
                assert(params_model(values@, values@.len()) + (seq![value@] + vs)
                    =~= params_model(values@, values@.len()).push(value@) + vs);
            }
        }
        values.push(value);
        used += bytes;
        i += 1;
    }
    proof {
        lemma_unmarshal_fields_step(
            fields,
            i as int,
            ctx.byteorder,
            ctx.buf@,
            ctx.offset + used,
            ctx.fds@,
        );
        assert(params_model(values@, values@.len()) + Seq::<SpecParam>::empty() =~= params_model(
            values@,
            values@.len(),
        ));
    }
    Ok((used, values))
}

fn unmarshal_struct(sigs: &signature::StructTypes, ctx: &UnmarshalContext) -> (r: UnmarshalResult<
    Vec<params::Param>,
>)
    requires
        ctx.wf(),
        SpecType::Struct(sigs@).wf(),
    ensures
        match r {
            Ok((n, vs)) => ctx.read(SpecType::Struct(sigs@)) == Ok::<
                (int, SpecParam),
                UnmarshalError,
            >((n as int, SpecParam::Struct(params_model(vs@, vs@.len())))) && 1 <= n && ctx.offset
                + n <= ctx.buf@.len(),
            Err(e) => ctx.read(SpecType::Struct(sigs@)) == Err::<(int, SpecParam), UnmarshalError>(
                e,
            ),
        },
    decreases ctx.buf@.len() - ctx.offset, sigs,
{
    proof {
        reveal(unmarshal_spec);
    }
    let total = ctx.buf.len();
    let padding = util::align_offset(8, ctx.buf, ctx.offset)?;
    let (bytes, values) = unmarshal_run(&sigs.0, &ctx.advanced(padding))?;
    Ok((padding + bytes, values))
}

/// Reads the values of a message body: one value for each type of
/// `sigs`, one after the other from `offset` on.
pub fn unmarshal_body(
    byteorder: ByteOrder,
    sigs: &Vec<signature::Type>,
    buf: &[u8],
    fds: &[UnixFd],
    offset: usize,
) -> (r: UnmarshalResult<Vec<params::Param>>)
    requires
        offset <= buf@.len(),
        signature::types_wf(signature::types_model(sigs@, sigs@.len())),
    ensures
        match r {
            Ok((n, vs)) => unmarshal_fields(
                signature::types_model(sigs@, sigs@.len()),
                0,
                byteorder,
                buf@,
                offset as int,
                fds@,
            ) == Ok::<(int, Seq<SpecParam>), UnmarshalError>(
                (n as int, params_model(vs@, vs@.len())),
            ) && offset + n <= buf@.len(),
            Err(e) => unmarshal_fields(
                signature::types_model(sigs@, sigs@.len()),
                0,
                byteorder,
                buf@,
                offset as int,
                fds@,
            ) == Err::<(int, Seq<SpecParam>), UnmarshalError>(e),
        },
{
    let ctx = UnmarshalContext { byteorder, buf, offset, fds };
    unmarshal_run(sigs, &ctx)
}

} // verus!
