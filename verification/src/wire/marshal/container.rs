//! Writing values of the container types, and values of any type.
use crate::params;
use crate::params::entries_model;
use crate::params::params_model;
use crate::params::SpecParam;
use crate::signature;
use crate::wire::errors::MarshalError;
use crate::wire::marshal::base::marshal_base_param;
use crate::wire::marshal::marshal_entries;
use crate::wire::marshal::marshal_post;
use crate::wire::marshal::marshal_seq;
use crate::wire::marshal::lemma_extends_trans;
use crate::wire::marshal::marshal_spec;
use crate::wire::marshal::type_fault;
use crate::wire::marshal::MarshalContext;
use crate::wire::marshal::Wire;
use crate::wire::marshal::MAX_ARRAY_LEN;
use crate::wire::util;
use crate::ByteOrder;
use vstd::prelude::*;
use vstd::string::StrSliceExecFns;

verus! {

/// An error among the first values is the error of the whole run.
pub proof fn lemma_marshal_seq_err(ps: Seq<SpecParam>, i: nat, n: nat, bo: ByteOrder, w: Wire)
    requires
        i <= n <= ps.len(),
        marshal_seq(ps, i, bo, w) is Err,
    ensures
        marshal_seq(ps, n, bo, w) == marshal_seq(ps, i, bo, w),
    decreases n - i,
{
    if i < n {
        lemma_marshal_seq_err(ps, i, (n - 1) as nat, bo, w);
    }
}

/// An error among the first entries is the error of the whole run.
pub proof fn lemma_marshal_entries_err(
    es: Seq<(SpecParam, SpecParam)>,
    i: nat,
    n: nat,
    bo: ByteOrder,
    w: Wire,
)
    requires
        i <= n <= es.len(),
        marshal_entries(es, i, bo, w) is Err,
    ensures
        marshal_entries(es, n, bo, w) == marshal_entries(es, i, bo, w),
    decreases n - i,
{
    if i < n {
        lemma_marshal_entries_err(es, i, (n - 1) as nat, bo, w);
    }
}

/// Writes a value of any type.
pub fn marshal_param(p: &params::Param, ctx: &mut MarshalContext) -> (r: Result<(), MarshalError>)
    ensures
        final(ctx).byteorder == old(ctx).byteorder,
        marshal_post(
            old(ctx)@,
            final(ctx)@,
            marshal_spec(p@, old(ctx).byteorder, old(ctx)@),
            r,
        ),
    decreases p,
{
    match p {
        params::Param::Base(b) => marshal_base_param(b, ctx),
        params::Param::Container(c) => marshal_container_param(c, ctx),
    }
}

/// Makes room for the length of an array or dict and pads up to its first
/// element; gives the position of the length.
pub(crate) fn open_collection(align: usize, ctx: &mut MarshalContext) -> (len_pos: usize)
    requires
        align > 0,
    ensures
        final(ctx).byteorder == old(ctx).byteorder,
        final(ctx)@ == old(ctx)@.open_collection(align as nat),
        final(ctx)@.extends(old(ctx)@),
        len_pos == old(ctx)@.pad(4).buf.len(),
        len_pos + 4 <= final(ctx)@.buf.len(),
{
    ctx.align_to(4);
    let len_pos = ctx.buf.len();
    ctx.buf.push(0);
    ctx.buf.push(0);
    ctx.buf.push(0);
    ctx.buf.push(0);
    assert(ctx@.buf =~= old(ctx)@.pad(4).put(util::zeros(4)).buf);
    // the padding between the length and the first element is not counted in the length
    ctx.align_to(align);
    len_pos
}

/// Writes the length of the elements of an array or dict into the room
/// that was made for it.
pub(crate) fn close_collection(
    len_pos: usize,
    content_pos: usize,
    ctx: &mut MarshalContext,
    Ghost(start): Ghost<Wire>,
) -> (r: Result<(), MarshalError>)
    requires
        start.buf.len() <= len_pos,
        len_pos + 4 <= content_pos <= old(ctx)@.buf.len(),
        old(ctx)@.extends(start),
    ensures
        final(ctx).byteorder == old(ctx).byteorder,
        final(ctx)@.extends(start),
        final(ctx)@.fds == old(ctx)@.fds,
        old(ctx)@.buf.len() - content_pos > MAX_ARRAY_LEN ==> r == Err::<(), MarshalError>(
            MarshalError::TooLong,
        ),
        old(ctx)@.buf.len() - content_pos <= MAX_ARRAY_LEN ==> r is Ok && final(ctx)@.buf == old(
            ctx,
        )@.buf.subrange(0, len_pos as int) + util::u32_bytes(
            old(ctx).byteorder,
            (old(ctx)@.buf.len() - content_pos) as u32,
        ) + old(ctx)@.buf.subrange(len_pos + 4, old(ctx)@.buf.len() as int),
{
    let len = ctx.buf.len() - content_pos;
    if len > MAX_ARRAY_LEN {
        return Err(MarshalError::TooLong);
    }
    util::insert_u32(ctx.byteorder, len as u32, &mut ctx.buf, len_pos);
    Ok(())
}

#[verifier::loop_isolation(false)]
fn marshal_array(array: &params::Array, ctx: &mut MarshalContext) -> (r: Result<(), MarshalError>)
    requires
        params::all_of_type(params_model(array.values@, array.values@.len()), array.element_sig@),
    ensures
        final(ctx).byteorder == old(ctx).byteorder,
        marshal_post(
            old(ctx)@,
            final(ctx)@,
            marshal_spec(
                SpecParam::Array(
                    array.element_sig@,
                    params_model(array.values@, array.values@.len()),
                ),
                old(ctx).byteorder,
                old(ctx)@,
            ),
            r,
        ),
    decreases array,
{
    let ghost vs = params_model(array.values@, array.values@.len());
    let ghost bo = ctx.byteorder;
    proof {
        params::lemma_params_model(array.values@, array.values@.len());
        reveal(marshal_spec);
    }
    let len_pos = open_collection(array.element_sig.get_alignment(), ctx);
    let content_pos = ctx.buf.len();
    let ghost opened = ctx@;
    let mut i: usize = 0;
    while i < array.values.len()
        invariant
            i <= array.values.len(),
            ctx.byteorder == bo,
            ctx@.extends(opened),
            marshal_seq(vs, i as nat, bo, opened) matches Ok(w) && w.buf == ctx@.buf && w.fds
                == ctx@.fds,
        decreases array.values.len() - i,
    {
        let p = &array.values[i];
        assert(marshal_seq(vs, i as nat, bo, opened)->Ok_0 =~= ctx@);
        match marshal_param(p, ctx) {
            Ok(()) => {},
            Err(e) => {
                proof {
                    lemma_marshal_seq_err(vs, (i + 1) as nat, vs.len(), bo, opened);
                }
                return Err(e);
            },
        }
        i += 1;
    }
    close_collection(len_pos, content_pos, ctx, Ghost(old(ctx)@))
}

#[verifier::loop_isolation(false)]
fn marshal_struct(params: &Vec<params::Param>, ctx: &mut MarshalContext) -> (r: Result<
    (),
    MarshalError,
>)
    ensures
        final(ctx).byteorder == old(ctx).byteorder,
        marshal_post(
            old(ctx)@,
            final(ctx)@,
            marshal_spec(
                SpecParam::Struct(params_model(params@, params@.len())),
                old(ctx).byteorder,
                old(ctx)@,
            ),
            r,
        ),
    decreases params,
{
    let ghost fs = params_model(params@, params@.len());
    let ghost bo = ctx.byteorder;
    proof {
        params::lemma_params_model(params@, params@.len());
        assert(marshal_spec(SpecParam::Struct(fs), bo, ctx@) == if fs.len() == 0 {
            Err::<Wire, MarshalError>(MarshalError::EmptyStruct)
        } else {
            marshal_seq(fs, fs.len(), bo, ctx@.pad(8))
        }) by {
            reveal(marshal_spec);
        }
    }
    if params.len() == 0 {
        return Err(MarshalError::EmptyStruct);
    }
    ctx.align_to(8);
    let ghost opened = ctx@;
    let mut i: usize = 0;
    while i < params.len()
        invariant
            i <= params.len(),
            ctx.byteorder == bo,
            ctx@.extends(opened),
            marshal_seq(fs, i as nat, bo, opened) matches Ok(w) && w.buf == ctx@.buf && w.fds
                == ctx@.fds,
        decreases params.len() - i,
    {
        let p = &params[i];
        let ghost before = ctx@;
        assert(marshal_seq(fs, i as nat, bo, opened)->Ok_0 =~= ctx@);
        assert(marshal_seq(fs, (i + 1) as nat, bo, opened) == marshal_spec(fs[i as int], bo, before)) by {
            reveal(marshal_spec);
        }
        let r = marshal_param(p, ctx);
        proof {
            lemma_extends_trans(opened, before, ctx@);
            lemma_extends_trans(old(ctx)@, opened, ctx@);
        }
        match r {
            Ok(()) => {},
            Err(e) => {
                proof {
                    lemma_marshal_seq_err(fs, (i + 1) as nat, fs.len(), bo, opened);
                }
                return Err(e);
            },
        }
        i += 1;
    }
    proof {
        lemma_extends_trans(old(ctx)@, opened, ctx@);
    }
    Ok(())
}

fn marshal_variant(var: &params::Variant, ctx: &mut MarshalContext) -> (r: Result<
    (),
    MarshalError,
>)
    ensures
        final(ctx).byteorder == old(ctx).byteorder,
        marshal_post(
            old(ctx)@,
            final(ctx)@,
            marshal_spec(
                SpecParam::Variant(var.sig@, Box::new(var.value@)),
                old(ctx).byteorder,
                old(ctx)@,
            ),
            r,
        ),
    decreases var,
{
    proof {
        reveal(marshal_spec);
    }
    if !var.value.sig().same(&var.sig) {
        return Err(MarshalError::VariantSigMismatch);
    }
    write_type(&var.sig, ctx)?;
    marshal_param(&var.value, ctx)
}

/// Writes the signature of `sig` as a signature value, if a reader would
/// take it back.
pub fn write_type(sig: &signature::Type, ctx: &mut MarshalContext) -> (r: Result<(), MarshalError>)
    ensures
        final(ctx).byteorder == old(ctx).byteorder,
        final(ctx)@.extends(old(ctx)@),
        match type_fault(sig@) {
            Some(e) => r == Err::<(), MarshalError>(e) && final(ctx)@ == old(ctx)@,
            None => r is Ok && final(ctx)@ == old(ctx)@.put(util::signature_wire(sig@.text())),
        },
{
    if !sig.is_well_formed() {
        return Err(MarshalError::EmptyStruct);
    }
    if sig.depth() > signature::MAX_NESTING_DEPTH {
        return Err(MarshalError::ExceedsMaxDepth);
    }
    let mut sig_str = String::new();
    sig.to_str(&mut sig_str);
    assert(sig_str@ =~= sig@.text());
    if sig_str.as_str().unicode_len() > signature::MAX_SIGNATURE_LEN {
        return Err(MarshalError::TooLong);
    }
    proof {
        signature::lemma_text_chars(sig@);
        vstd::utf8::is_ascii_chars_encode_utf8(sig_str@);
    }
    match util::write_signature(sig_str.as_str(), &mut ctx.buf) {
        Ok(()) => Ok(()),
        Err(e) => Err(e),
    }
}

#[verifier::loop_isolation(false)]
fn marshal_dict(dict: &params::Dict, ctx: &mut MarshalContext) -> (r: Result<(), MarshalError>)
    requires
        params::dict_fault(
            entries_model(dict.map@, dict.map@.len()),
            dict.key_sig,
            dict.value_sig@,
        ) is None,
    ensures
        final(ctx).byteorder == old(ctx).byteorder,
        marshal_post(
            old(ctx)@,
            final(ctx)@,
            marshal_spec(
                SpecParam::Dict(
                    dict.key_sig,
                    dict.value_sig@,
                    entries_model(dict.map@, dict.map@.len()),
                ),
                old(ctx).byteorder,
                old(ctx)@,
            ),
            r,
        ),
    decreases dict,
{
    let ghost es = entries_model(dict.map@, dict.map@.len());
    let ghost bo = ctx.byteorder;
    proof {
        params::lemma_entries_model(dict.map@, dict.map@.len());
        assert(marshal_spec(SpecParam::Dict(dict.key_sig, dict.value_sig@, es), bo, ctx@)
            == crate::wire::marshal::close_collection(
            bo,
            ctx@,
            8,
            marshal_entries(es, es.len(), bo, ctx@.open_collection(8)),
        )) by {
            reveal(marshal_spec);
        }
    }
    let len_pos = open_collection(8, ctx);
    let content_pos = ctx.buf.len();
    let ghost opened = ctx@;
    let mut i: usize = 0;
    while i < dict.map.len()
        invariant
            i <= dict.map.len(),
            ctx.byteorder == bo,
            ctx@.extends(opened),
            marshal_entries(es, i as nat, bo, opened) matches Ok(w) && w.buf == ctx@.buf && w.fds
                == ctx@.fds,
        decreases dict.map.len() - i,
    {
        let entry = &dict.map[i];
        assert(marshal_entries(es, i as nat, bo, opened)->Ok_0 =~= ctx@);
        let ghost entered = ctx@;
        ctx.align_to(8);
        let ghost padded = ctx@;
        proof {
            lemma_extends_trans(opened, entered, padded);
        }
        assert(marshal_entries(es, (i + 1) as nat, bo, opened) == match marshal_spec(
            es[i as int].0,
            bo,
            padded,
        ) {
            Err(e) => Err(e),
            Ok(w2) => marshal_spec(es[i as int].1, bo, w2),
        }) by {
            reveal(marshal_spec);
        }
        let r = marshal_param(&entry.0, ctx);
        proof {
            lemma_extends_trans(opened, padded, ctx@);
            lemma_extends_trans(old(ctx)@, opened, ctx@);
        }
        match r {
            Ok(()) => {},
            Err(e) => {
                proof {
                    lemma_marshal_entries_err(es, (i + 1) as nat, es.len(), bo, opened);
                }
                return Err(e);
            },
        }
        assert(marshal_spec(es[i as int].0, bo, padded)->Ok_0 =~= ctx@);
        let ghost keyed = ctx@;
        let r = marshal_param(&entry.1, ctx);
        proof {
            lemma_extends_trans(opened, keyed, ctx@);
            lemma_extends_trans(old(ctx)@, opened, ctx@);
        }
        match r {
            Ok(()) => {},
            Err(e) => {
                proof {
                    lemma_marshal_entries_err(es, (i + 1) as nat, es.len(), bo, opened);
                }
                return Err(e);
            },
        }
        i += 1;
    }
    close_collection(len_pos, content_pos, ctx, Ghost(old(ctx)@))
}

/// Writes a value of a container type. The elements of an array and the
/// entries of a dict must have the types declared for them, and a variant
/// the type declared for it.
pub fn marshal_container_param(p: &params::Container, ctx: &mut MarshalContext) -> (r: Result<
    (),
    MarshalError,
>)
    ensures
        final(ctx).byteorder == old(ctx).byteorder,
        marshal_post(
            old(ctx)@,
            final(ctx)@,
            marshal_spec(p@, old(ctx).byteorder, old(ctx)@),
            r,
        ),
    decreases p,
{
    proof {
        reveal(marshal_spec);
    }
    match p {
        params::Container::Array(params) => {
            params::validate_array(params.values.as_slice(), &params.element_sig)?;
            marshal_array(params, ctx)
        },
        params::Container::Struct(params) => marshal_struct(params, ctx),
        params::Container::Dict(params) => {
            params::validate_dict(&params.map, params.key_sig, &params.value_sig)?;
            marshal_dict(params, ctx)
        },
        params::Container::Variant(variant) => marshal_variant(variant, ctx),
    }
}

} // verus!
