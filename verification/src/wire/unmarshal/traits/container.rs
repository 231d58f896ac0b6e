//! Reading tuples, sequences and dicts.
use crate::params::SpecParam;
use crate::signature::SpecType;
use crate::wire::errors::UnmarshalError;
use crate::wire::marshal::traits::container::elems_params;
use crate::wire::marshal::traits::container::entries_params;
use crate::wire::marshal::traits::DictKey;
use crate::wire::marshal::traits::Signature;
use crate::wire::unmarshal::lemma_unmarshal_containers;
use crate::wire::unmarshal::lemma_unmarshal_dict;
use crate::wire::unmarshal::lemma_unmarshal_elems_step;
use crate::wire::unmarshal::lemma_unmarshal_entries_step;
use crate::wire::unmarshal::lemma_unmarshal_entry;
use crate::wire::unmarshal::lemma_unmarshal_fields_step;
use crate::wire::unmarshal::traits::Unmarshal;
use crate::wire::unmarshal::unmarshal_elems;
use crate::wire::unmarshal::unmarshal_entries;
use crate::wire::unmarshal::unmarshal_fields;
use crate::wire::unmarshal::UnmarshalContext;
use crate::wire::util;
use crate::wire::util::UnmarshalResult;
use crate::wire::validate_raw::collection_head_at;
use crate::wire::Dict;
use vstd::prelude::*;
use vstd::slice::slice_subrange;

verus! {

impl<'buf, 'fds, A: Unmarshal<'buf, 'fds>> Unmarshal<'buf, 'fds> for (A,) {
    fn unmarshal(ctx: &UnmarshalContext<'fds, 'buf>) -> (r: UnmarshalResult<Self>) {
        let ghost fields = seq![A::sig_spec()];
        proof {
            lemma_unmarshal_containers(ctx.byteorder, ctx.buf@, ctx.offset as int, ctx.fds@);
        }
        let total = ctx.buf.len();
        // a struct starts at a multiple of 8
        let padding = util::align_offset(8, ctx.buf, ctx.offset)?;
        proof {
            lemma_unmarshal_fields_step(
                fields,
                0,
                ctx.byteorder,
                ctx.buf@,
                ctx.offset + padding,
                ctx.fds@,
            );
        }
        let (n0, v0) = A::unmarshal(&ctx.advanced(padding))?;
        proof {
            lemma_unmarshal_fields_step(
                fields,
                1,
                ctx.byteorder,
                ctx.buf@,
                ctx.offset + padding + n0,
                ctx.fds@,
            );
            assert(seq![v0.param()] + (Seq::<SpecParam>::empty()) =~= seq![v0.param()]);
        }
        Ok((padding + n0, (v0,)))
    }
}

impl<
    'buf,
    'fds,
    A: Unmarshal<'buf, 'fds>,
    B: Unmarshal<'buf, 'fds>,
> Unmarshal<'buf, 'fds> for (A, B) {
    fn unmarshal(ctx: &UnmarshalContext<'fds, 'buf>) -> (r: UnmarshalResult<Self>) {
        let ghost fields = seq![A::sig_spec(), B::sig_spec()];
        proof {
            lemma_unmarshal_containers(ctx.byteorder, ctx.buf@, ctx.offset as int, ctx.fds@);
        }
        let total = ctx.buf.len();
        // a struct starts at a multiple of 8
        let padding = util::align_offset(8, ctx.buf, ctx.offset)?;
        proof {
            lemma_unmarshal_fields_step(
                fields,
                0,
                ctx.byteorder,
                ctx.buf@,
                ctx.offset + padding,
                ctx.fds@,
            );
        }
        let (n0, v0) = A::unmarshal(&ctx.advanced(padding))?;
        proof {
            lemma_unmarshal_fields_step(
                fields,
                1,
                ctx.byteorder,
                ctx.buf@,
                ctx.offset + padding + n0,
                ctx.fds@,
            );
        }
        let (n1, v1) = B::unmarshal(&ctx.advanced(padding + n0))?;
        proof {
            lemma_unmarshal_fields_step(
                fields,
                2,
                ctx.byteorder,
                ctx.buf@,
                ctx.offset + padding + n0 + n1,
                ctx.fds@,
            );
            assert(
                seq![v0.param()] + (seq![v1.param()] + (Seq::<SpecParam>::empty()))
                =~= seq![v0.param(), v1.param()]
            );
        }
        Ok((padding + n0 + n1, (v0, v1)))
    }
}

impl<
    'buf,
    'fds,
    A: Unmarshal<'buf, 'fds>,
    B: Unmarshal<'buf, 'fds>,
    C: Unmarshal<'buf, 'fds>,
> Unmarshal<'buf, 'fds> for (A, B, C) {
    fn unmarshal(ctx: &UnmarshalContext<'fds, 'buf>) -> (r: UnmarshalResult<Self>) {
        let ghost fields = seq![A::sig_spec(), B::sig_spec(), C::sig_spec()];
        proof {
            lemma_unmarshal_containers(ctx.byteorder, ctx.buf@, ctx.offset as int, ctx.fds@);
        }
        let total = ctx.buf.len();
        // a struct starts at a multiple of 8
        let padding = util::align_offset(8, ctx.buf, ctx.offset)?;
        proof {
            lemma_unmarshal_fields_step(
                fields,
                0,
                ctx.byteorder,
                ctx.buf@,
                ctx.offset + padding,
                ctx.fds@,
            );
        }
        let (n0, v0) = A::unmarshal(&ctx.advanced(padding))?;
        proof {
            lemma_unmarshal_fields_step(
                fields,
                1,
                ctx.byteorder,
                ctx.buf@,
                ctx.offset + padding + n0,
                ctx.fds@,
            );
        }
        let (n1, v1) = B::unmarshal(&ctx.advanced(padding + n0))?;
        proof {
            lemma_unmarshal_fields_step(
                fields,
                2,
                ctx.byteorder,
                ctx.buf@,
                ctx.offset + padding + n0 + n1,
                ctx.fds@,
            );
        }
        let (n2, v2) = C::unmarshal(&ctx.advanced(padding + n0 + n1))?;
        proof {
            lemma_unmarshal_fields_step(
                fields,
                3,
                ctx.byteorder,
                ctx.buf@,
                ctx.offset + padding + n0 + n1 + n2,
                ctx.fds@,
            );
            assert(
                seq![v0.param()] + (seq![v1.param()] + (seq![v2.param()] + (Seq::<SpecParam>::empty())))
                =~= seq![v0.param(), v1.param(), v2.param()]
            );
        }
        Ok((padding + n0 + n1 + n2, (v0, v1, v2)))
    }
}

impl<
    'buf,
    'fds,
    A: Unmarshal<'buf, 'fds>,
    B: Unmarshal<'buf, 'fds>,
    C: Unmarshal<'buf, 'fds>,
    D: Unmarshal<'buf, 'fds>,
> Unmarshal<'buf, 'fds> for (A, B, C, D) {
    fn unmarshal(ctx: &UnmarshalContext<'fds, 'buf>) -> (r: UnmarshalResult<Self>) {
        let ghost fields = seq![A::sig_spec(), B::sig_spec(), C::sig_spec(), D::sig_spec()];
        proof {
            lemma_unmarshal_containers(ctx.byteorder, ctx.buf@, ctx.offset as int, ctx.fds@);
        }
        let total = ctx.buf.len();
        // a struct starts at a multiple of 8
        let padding = util::align_offset(8, ctx.buf, ctx.offset)?;
        proof {
            lemma_unmarshal_fields_step(
                fields,
                0,
                ctx.byteorder,
                ctx.buf@,
                ctx.offset + padding,
                ctx.fds@,
            );
        }
        let (n0, v0) = A::unmarshal(&ctx.advanced(padding))?;
        proof {
            lemma_unmarshal_fields_step(
                fields,
                1,
                ctx.byteorder,
                ctx.buf@,
                ctx.offset + padding + n0,
                ctx.fds@,
            );
        }
        let (n1, v1) = B::unmarshal(&ctx.advanced(padding + n0))?;
        proof {
            lemma_unmarshal_fields_step(
                fields,
                2,
                ctx.byteorder,
                ctx.buf@,
                ctx.offset + padding + n0 + n1,
                ctx.fds@,
            );
        }
        let (n2, v2) = C::unmarshal(&ctx.advanced(padding + n0 + n1))?;
        proof {
            lemma_unmarshal_fields_step(
                fields,
                3,
                ctx.byteorder,
                ctx.buf@,
                ctx.offset + padding + n0 + n1 + n2,
                ctx.fds@,
            );
        }
        let (n3, v3) = D::unmarshal(&ctx.advanced(padding + n0 + n1 + n2))?;
        proof {
            lemma_unmarshal_fields_step(
                fields,
                4,
                ctx.byteorder,
                ctx.buf@,
                ctx.offset + padding + n0 + n1 + n2 + n3,
                ctx.fds@,
            );
            assert(
                seq![v0.param()] + (seq![v1.param()] + (seq![v2.param()] + (seq![v3.param()] + (Seq::<SpecParam>::empty()))))
                =~= seq![v0.param(), v1.param(), v2.param(), v3.param()]
            );
        }
        Ok((padding + n0 + n1 + n2 + n3, (v0, v1, v2, v3)))
    }
}

impl<
    'buf,
    'fds,
    A: Unmarshal<'buf, 'fds>,
    B: Unmarshal<'buf, 'fds>,
    C: Unmarshal<'buf, 'fds>,
    D: Unmarshal<'buf, 'fds>,
    E: Unmarshal<'buf, 'fds>,
> Unmarshal<'buf, 'fds> for (A, B, C, D, E) {
    fn unmarshal(ctx: &UnmarshalContext<'fds, 'buf>) -> (r: UnmarshalResult<Self>) {
        let ghost fields = seq![
            A::sig_spec(),
            B::sig_spec(),
            C::sig_spec(),
            D::sig_spec(),
            E::sig_spec(),
        ];
        proof {
            lemma_unmarshal_containers(ctx.byteorder, ctx.buf@, ctx.offset as int, ctx.fds@);
        }
        let total = ctx.buf.len();
        // a struct starts at a multiple of 8
        let padding = util::align_offset(8, ctx.buf, ctx.offset)?;
        proof {
            lemma_unmarshal_fields_step(
                fields,
                0,
                ctx.byteorder,
                ctx.buf@,
                ctx.offset + padding,
                ctx.fds@,
            );
        }
        let (n0, v0) = A::unmarshal(&ctx.advanced(padding))?;
        proof {
            lemma_unmarshal_fields_step(
                fields,
                1,
                ctx.byteorder,
                ctx.buf@,
                ctx.offset + padding + n0,
                ctx.fds@,
            );
        }
        let (n1, v1) = B::unmarshal(&ctx.advanced(padding + n0))?;
        proof {
            lemma_unmarshal_fields_step(
                fields,
                2,
                ctx.byteorder,
                ctx.buf@,
                ctx.offset + padding + n0 + n1,
                ctx.fds@,
            );
        }
        let (n2, v2) = C::unmarshal(&ctx.advanced(padding + n0 + n1))?;
        proof {
            lemma_unmarshal_fields_step(
                fields,
                3,
                ctx.byteorder,
                ctx.buf@,
                ctx.offset + padding + n0 + n1 + n2,
                ctx.fds@,
            );
        }
        let (n3, v3) = D::unmarshal(&ctx.advanced(padding + n0 + n1 + n2))?;
        proof {
            lemma_unmarshal_fields_step(
                fields,
                4,
                ctx.byteorder,
                ctx.buf@,
                ctx.offset + padding + n0 + n1 + n2 + n3,
                ctx.fds@,
            );
        }
        let (n4, v4) = E::unmarshal(&ctx.advanced(padding + n0 + n1 + n2 + n3))?;
        proof {
            lemma_unmarshal_fields_step(
                fields,
                5,
                ctx.byteorder,
                ctx.buf@,
                ctx.offset + padding + n0 + n1 + n2 + n3 + n4,
                ctx.fds@,
            );
            assert(
                seq![v0.param()] + (seq![v1.param()] + (seq![v2.param()] + (seq![v3.param()] + (seq![v4.param()] + (Seq::<SpecParam>::empty())))))
                =~= seq![v0.param(), v1.param(), v2.param(), v3.param(), v4.param()]
            );
        }
        Ok((padding + n0 + n1 + n2 + n3 + n4, (v0, v1, v2, v3, v4)))
    }
}

impl<'buf, 'fds, E: Unmarshal<'buf, 'fds>> Unmarshal<'buf, 'fds> for Vec<E> {
    #[verifier::loop_isolation(false)]
    fn unmarshal(ctx: &UnmarshalContext<'fds, 'buf>) -> (r: UnmarshalResult<Self>) {
        proof {
            lemma_unmarshal_containers(ctx.byteorder, ctx.buf@, ctx.offset as int, ctx.fds@);
        }
        let total = ctx.buf.len();
        let (head, len) = match collection_head_at(
            ctx.byteorder,
            ctx.offset,
            ctx.buf,
            E::alignment(),
        ) {
            Ok(r) => r,
            Err((_, e)) => {
                return Err(e);
            },
        };
        let start = ctx.offset + head;
        // the elements see nothing behind the end that the array claims
        let inner = slice_subrange(ctx.buf, 0, start + len);
        let ghost wanted = unmarshal_elems(
            E::sig_spec(),
            ctx.byteorder,
            inner@,
            start as int,
            ctx.fds@,
        );
        let mut values: Vec<E> = Vec::new();
        let mut used: usize = 0;
        while used < len
            invariant
                used <= len,
                wanted == match unmarshal_elems(
                    E::sig_spec(),
                    ctx.byteorder,
                    inner@,
                    start + used,
                    ctx.fds@,
                ) {
                    Ok(more) => Ok::<Seq<SpecParam>, UnmarshalError>(elems_params(values@) + more),
                    Err(e) => Err(e),
                },
            decreases len - used,
        {
            let at = UnmarshalContext {
                byteorder: ctx.byteorder,
                buf: inner,
                offset: start + used,
                fds: ctx.fds,
            };
            proof {
                lemma_unmarshal_elems_step(
                    E::sig_spec(),
                    ctx.byteorder,
                    inner@,
                    start + used,
                    ctx.fds@,
                );
            }
            let (bytes, value) = E::unmarshal(&at)?;
            proof {
                let more = unmarshal_elems(
                    E::sig_spec(),
                    ctx.byteorder,
                    inner@,
                    start + used + bytes,
                    ctx.fds@,
                );
                if let Ok(m) = more {
                    assert(elems_params(values@) + (seq![value.param()] + m) =~= elems_params(
                        values@.push(value),
                    ) + m);
                }
            }
            values.push(value);
            used += bytes;
        }
        proof {
            lemma_unmarshal_elems_step(
                E::sig_spec(),
                ctx.byteorder,
                inner@,
                start + used,
                ctx.fds@,
            );
            assert(elems_params(values@) + Seq::<SpecParam>::empty() =~= elems_params(values@));
        }
        Ok((head + len, values))
    }
}

/// Reads one entry of a dict at the cursor: padding to 8, the key, the value.
fn unmarshal_entry_at<'buf, 'fds, K: Unmarshal<'buf, 'fds> + DictKey, V: Unmarshal<'buf, 'fds>>(
    ctx: &UnmarshalContext<'fds, 'buf>,
) -> (r: UnmarshalResult<(K, V)>)
    requires
        ctx.wf(),
    ensures
        match r {
            Ok((n, entry)) => crate::wire::unmarshal::unmarshal_entry(
                K::key_spec(),
                V::sig_spec(),
                ctx.byteorder,
                ctx.buf@,
                ctx.offset as int,
                ctx.fds@,
            ) == Ok::<(int, (SpecParam, SpecParam)), UnmarshalError>(
                (n as int, (entry.0.param(), entry.1.param())),
            ) && 1 <= n && ctx.offset + n <= ctx.buf@.len(),
            Err(e) => crate::wire::unmarshal::unmarshal_entry(
                K::key_spec(),
                V::sig_spec(),
                ctx.byteorder,
                ctx.buf@,
                ctx.offset as int,
                ctx.fds@,
            ) == Err::<(int, (SpecParam, SpecParam)), UnmarshalError>(e),
        },
{
    proof {
        K::lemma_key_type();
        lemma_unmarshal_entry(
            K::key_spec(),
            V::sig_spec(),
            ctx.byteorder,
            ctx.buf@,
            ctx.offset as int,
            ctx.fds@,
        );
    }
    let total = ctx.buf.len();
    let padding = util::align_offset(8, ctx.buf, ctx.offset)?;
    let at_key = ctx.advanced(padding);
    proof {
        lemma_unmarshal_containers(at_key.byteorder, at_key.buf@, at_key.offset as int, at_key.fds@);
    }
    let (key_bytes, key) = K::unmarshal(&at_key)?;
    let (val_bytes, val) = V::unmarshal(&ctx.advanced(padding + key_bytes))?;
    Ok((padding + key_bytes + val_bytes, (key, val)))
}

impl<'buf, 'fds, K: Unmarshal<'buf, 'fds> + DictKey, V: Unmarshal<'buf, 'fds>> Unmarshal<
    'buf,
    'fds,
> for Dict<K, V> {
    #[verifier::loop_isolation(false)]
    fn unmarshal(ctx: &UnmarshalContext<'fds, 'buf>) -> (r: UnmarshalResult<Self>) {
        proof {
            lemma_unmarshal_dict(
                K::key_spec(),
                V::sig_spec(),
                ctx.byteorder,
                ctx.buf@,
                ctx.offset as int,
                ctx.fds@,
            );
        }
        let total = ctx.buf.len();
        let (head, len) = match collection_head_at(ctx.byteorder, ctx.offset, ctx.buf, 8) {
            Ok(r) => r,
            Err((_, e)) => {
                return Err(e);
            },
        };
        let start = ctx.offset + head;
        // the entries see nothing behind the end that the dict claims
        let inner = slice_subrange(ctx.buf, 0, start + len);
        let ghost wanted = unmarshal_entries(
            K::key_spec(),
            V::sig_spec(),
            ctx.byteorder,
            inner@,
            start as int,
            ctx.fds@,
        );
        let mut entries: Vec<(K, V)> = Vec::new();
        let mut used: usize = 0;
        while used < len
            invariant
                used <= len,
                wanted == match unmarshal_entries(
                    K::key_spec(),
                    V::sig_spec(),
                    ctx.byteorder,
                    inner@,
                    start + used,
                    ctx.fds@,
                ) {
                    Ok(more) => Ok::<Seq<(SpecParam, SpecParam)>, UnmarshalError>(
                        entries_params(entries@) + more,
                    ),
                    Err(e) => Err(e),
                },
            decreases len - used,
        {
            let at = UnmarshalContext {
                byteorder: ctx.byteorder,
                buf: inner,
                offset: start + used,
                fds: ctx.fds,
            };
            proof {
                lemma_unmarshal_entries_step(
                    K::key_spec(),
                    V::sig_spec(),
                    ctx.byteorder,
                    inner@,
                    start + used,
                    ctx.fds@,
                );
            }
            let (bytes, entry) = unmarshal_entry_at::<K, V>(&at)?;
            proof {
                let more = unmarshal_entries(
                    K::key_spec(),
                    V::sig_spec(),
                    ctx.byteorder,
                    inner@,
                    start + used + bytes,
                    ctx.fds@,
                );
                if let Ok(m) = more {
                    assert(entries_params(entries@) + (seq![(entry.0.param(), entry.1.param())]
                        + m) =~= entries_params(entries@.push(entry)) + m);
                }
            }
            entries.push(entry);
            used += bytes;
        }
        proof {
            lemma_unmarshal_entries_step(
                K::key_spec(),
                V::sig_spec(),
                ctx.byteorder,
                inner@,
                start + used,
                ctx.fds@,
            );
            assert(entries_params(entries@) + Seq::<(SpecParam, SpecParam)>::empty()
                =~= entries_params(entries@));
        }
        Ok((head + len, Dict { entries }))
    }
}

} // verus!
