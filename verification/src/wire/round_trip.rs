//! What was written can be read: the laws that tie the writers to the
//! readers and to the validator.
use crate::params::SpecParam;
use crate::signature::SpecType;
use crate::wire::errors::MarshalError;
use crate::wire::marshal::close_collection;
use crate::wire::marshal::marshal_base_spec;
use crate::wire::marshal::marshal_entries;
use crate::wire::marshal::marshal_seq;
use crate::wire::marshal::marshal_spec;
use crate::wire::marshal::Wire;
use crate::wire::marshal::lemma_extends_trans;
use crate::wire::marshal::lemma_marshal_containers;
use crate::wire::marshal::lemma_marshal_entries_step;
use crate::wire::marshal::lemma_marshal_seq_step;
use crate::wire::marshal::type_fault;
use crate::wire::util;
use crate::wire::util::padding_for;
use crate::wire::util::zeros;
use crate::params::valid_object_path;
use crate::signature;
use crate::wire::errors::UnmarshalError;
use crate::wire::marshal::signature_fault;
use crate::wire::unmarshal::fixed_value;
use crate::params::all_of_type;
use crate::params::dict_fault;
use crate::params::lemma_params_types;
use crate::params::params_types;
use crate::wire::marshal::lemma_marshal_none;
use crate::wire::unmarshal::lemma_unmarshal_containers;
use crate::wire::unmarshal::lemma_unmarshal_dict;
use crate::wire::unmarshal::lemma_unmarshal_elems_step;
use crate::wire::unmarshal::lemma_unmarshal_entries_step;
use crate::wire::unmarshal::lemma_unmarshal_entry;
use crate::wire::unmarshal::lemma_unmarshal_fields_step;
use crate::wire::unmarshal::lemma_unmarshal_variant;
use crate::wire::unmarshal::unmarshal_base_spec;
use crate::wire::unmarshal::unmarshal_elems;
use crate::wire::unmarshal::unmarshal_entries;
use crate::wire::unmarshal::unmarshal_entry;
use crate::wire::unmarshal::unmarshal_fields;
use crate::wire::unmarshal::unmarshal_spec;
use crate::wire::util::align_offset_spec;
use crate::wire::util::signature_wire;
use crate::wire::util::string_wire;
use crate::wire::util::unmarshal_signature_spec;
use crate::wire::util::unmarshal_str_spec;
use crate::wire::validate_raw::collection_head;
use crate::wire::validate_raw::fixed_size;
use crate::wire::validate_raw::lemma_validate_steps;
use crate::wire::validate_raw::validate_base_spec;
use crate::wire::validate_raw::validate_elems;
use crate::wire::validate_raw::validate_entries;
use crate::wire::validate_raw::validate_fields;
use crate::wire::validate_raw::validate_spec;
use crate::wire::validate_raw::rest;
use crate::wire::UnixFd;
use crate::ByteOrder;
use vstd::prelude::*;
use vstd::utf8::decode_utf8;
use vstd::utf8::encode_utf8;
use vstd::utf8::valid_utf8;

verus! {

/// Padding and bytes are added behind what was there.
pub proof fn lemma_pad_put(w: Wire, align: nat, bytes: Seq<u8>)
    ensures
        w.pad(align).extends(w),
        w.put(bytes).extends(w),
        w.pad(align).put(bytes).extends(w),
        w.put(bytes).buf.len() == w.buf.len() + bytes.len(),
        w.pad(align).buf.len() == w.buf.len() + padding_for(align, w.buf.len()),
        w.pad(align).fds == w.fds,
        w.put(bytes).fds == w.fds,
{
}

/// Making room for the elements of an array or dict adds at least four
/// bytes behind what was there.
pub proof fn lemma_open_collection(w: Wire, align: nat)
    ensures
        w.open_collection(align).extends(w),
        w.open_collection(align).fds == w.fds,
        w.open_collection(align).buf.len() >= w.pad(4).buf.len() + 4,
        w.pad(4).buf.len() >= w.buf.len(),
{
    lemma_pad_put(w, 4, zeros(4));
    lemma_pad_put(w.pad(4).put(zeros(4)), align, zeros(4));
    lemma_extends_trans(w, w.pad(4).put(zeros(4)), w.open_collection(align));
}

/// Writing the length of an array or dict changes nothing of what was
/// there before the array or dict.
pub proof fn lemma_close_collection(bo: ByteOrder, w: Wire, align: nat, end: Wire)
    requires
        end.extends(w.open_collection(align)),
    ensures
        close_collection(bo, w, align, Ok(end)) matches Ok(w1) ==> w1.extends(w) && w1.buf.len()
            == end.buf.len() && w1.fds == end.fds,
        close_collection(bo, w, align, Ok(end)) is Err ==> close_collection(
            bo,
            w,
            align,
            Ok(end),
        ) == Err::<Wire, MarshalError>(MarshalError::TooLong),
{
    lemma_open_collection(w, align);
    util::lemma_bytes_len(bo);
}

/// A value of a basic type that is written adds at least one byte behind
/// what was there.
pub proof fn lemma_marshal_base_extends(p: SpecParam, bo: ByteOrder, w: Wire)
    requires
        p.is_base(),
    ensures
        marshal_base_spec(p, bo, w) matches Ok(w1) ==> w1.extends(w) && w1.buf.len()
            > w.buf.len(),
{
    reveal(marshal_base_spec);
    util::lemma_bytes_len(bo);
    match p {
        SpecParam::Byte(v) => {
            lemma_pad_put(w, 1, seq![v]);
        },
        SpecParam::Boolean(v) => {
            lemma_pad_put(
                w,
                4,
                util::u32_bytes(
                    bo,
                    if v {
                        1
                    } else {
                        0
                    },
                ),
            );
        },
        SpecParam::Int16(v) => {
            lemma_pad_put(w, 2, util::u16_bytes(bo, util::i16_bits(v)));
        },
        SpecParam::Uint16(v) => {
            lemma_pad_put(w, 2, util::u16_bytes(bo, v));
        },
        SpecParam::Int32(v) => {
            lemma_pad_put(w, 4, util::u32_bytes(bo, util::i32_bits(v)));
        },
        SpecParam::Uint32(v) => {
            lemma_pad_put(w, 4, util::u32_bytes(bo, v));
        },
        SpecParam::Int64(v) => {
            lemma_pad_put(w, 8, util::u64_bytes(bo, util::i64_bits(v)));
        },
        SpecParam::Uint64(v) => {
            lemma_pad_put(w, 8, util::u64_bytes(bo, v));
        },
        SpecParam::Double(v) => {
            lemma_pad_put(w, 8, util::u64_bytes(bo, v));
        },
        SpecParam::String(s) => {
            lemma_pad_put(w, 4, util::string_wire(bo, s));
        },
        SpecParam::ObjectPath(s) => {
            lemma_pad_put(w, 4, util::string_wire(bo, s));
        },
        SpecParam::Signature(s) => {
            lemma_pad_put(w, 1, util::signature_wire(s));
        },
        SpecParam::UnixFd(fd) => {
            lemma_pad_put(w, 4, util::u32_bytes(bo, w.fds.len() as u32));
        },
        _ => {},
    }
}

/// A value that is written adds at least one byte behind what was there,
/// and may add file descriptors behind those that were there.
pub proof fn lemma_marshal_extends(p: SpecParam, bo: ByteOrder, w: Wire)
    ensures
        marshal_spec(p, bo, w) matches Ok(w1) ==> w1.extends(w) && w1.buf.len() > w.buf.len(),
    decreases p, 0nat,
{
    lemma_marshal_containers(bo, w);
    match p {
        SpecParam::Array(t, vs) => {
            let opened = w.open_collection(t.alignment());
            lemma_open_collection(w, t.alignment());
            lemma_marshal_seq_extends(vs, vs.len(), bo, opened);
            if let Ok(end) = marshal_seq(vs, vs.len(), bo, opened) {
                lemma_close_collection(bo, w, t.alignment(), end);
            }
        },
        SpecParam::Struct(fs) => {
            if fs.len() > 0 {
                lemma_pad_put(w, 8, Seq::empty());
                lemma_marshal_seq_extends(fs, fs.len(), bo, w.pad(8));
                if let Ok(end) = marshal_seq(fs, fs.len(), bo, w.pad(8)) {
                    lemma_extends_trans(w, w.pad(8), end);
                }
            }
        },
        SpecParam::Dict(k, v, es) => {
            let opened = w.open_collection(8);
            lemma_open_collection(w, 8);
            lemma_marshal_entries_extends(es, es.len(), bo, opened);
            if let Ok(end) = marshal_entries(es, es.len(), bo, opened) {
                lemma_close_collection(bo, w, 8, end);
            }
        },
        SpecParam::Variant(t, v) => {
            let head = w.put(util::signature_wire(t.text()));
            lemma_marshal_variant(t, *v, bo, w);
            lemma_pad_put(w, 1, util::signature_wire(t.text()));
            lemma_marshal_extends(*v, bo, head);
            if let Ok(end) = marshal_spec(*v, bo, head) {
                lemma_extends_trans(w, head, end);
            }
        },
        _ => {
            lemma_marshal_is_base(p, bo, w);
            lemma_marshal_base_extends(p, bo, w);
        },
    }
}

/// What writing a variant comes to: the signature of the type, then the value.
pub proof fn lemma_marshal_variant(t: SpecType, v: SpecParam, bo: ByteOrder, w: Wire)
    ensures
        marshal_spec(SpecParam::Variant(t, Box::new(v)), bo, w) == if v.ty() != t {
            Err::<Wire, MarshalError>(MarshalError::VariantSigMismatch)
        } else {
            match type_fault(t) {
                Some(e) => Err(e),
                None => marshal_spec(v, bo, w.put(util::signature_wire(t.text()))),
            }
        },
{
    reveal(marshal_spec);
}

/// Writing a value of a basic type is writing it as one.
pub proof fn lemma_marshal_is_base(p: SpecParam, bo: ByteOrder, w: Wire)
    requires
        p.is_base(),
    ensures
        marshal_spec(p, bo, w) == marshal_base_spec(p, bo, w),
{
    reveal(marshal_spec);
}

/// Values that are written one after the other add behind what was
/// there; with at least one value, at least one byte.
pub proof fn lemma_marshal_seq_extends(ps: Seq<SpecParam>, n: nat, bo: ByteOrder, w: Wire)
    requires
        n <= ps.len(),
    ensures
        marshal_seq(ps, n, bo, w) matches Ok(w1) ==> w1.extends(w) && (n > 0 ==> w1.buf.len()
            > w.buf.len()),
    decreases ps, n,
{
    if n > 0 {
        lemma_marshal_seq_step(ps, (n - 1) as nat, bo, w);
        lemma_marshal_seq_extends(ps, (n - 1) as nat, bo, w);
        if let Ok(w1) = marshal_seq(ps, (n - 1) as nat, bo, w) {
            lemma_marshal_extends(ps[n - 1], bo, w1);
            if let Ok(w2) = marshal_spec(ps[n - 1], bo, w1) {
                lemma_extends_trans(w, w1, w2);
            }
        }
    } else if ps.len() > 0 {
        lemma_marshal_seq_step(ps, 0, bo, w);
    }
}

/// The wire after the first values is a beginning of the wire after more of them.
pub proof fn lemma_marshal_seq_mono(ps: Seq<SpecParam>, i: nat, n: nat, bo: ByteOrder, w: Wire)
    requires
        i <= n <= ps.len(),
    ensures
        marshal_seq(ps, n, bo, w) matches Ok(wn) ==> marshal_seq(ps, i, bo, w) matches Ok(wi)
            && wn.extends(wi),
    decreases ps, n - i,
{
    if i < n {
        lemma_marshal_seq_step(ps, (n - 1) as nat, bo, w);
        lemma_marshal_seq_mono(ps, i, (n - 1) as nat, bo, w);
        if let Ok(w1) = marshal_seq(ps, (n - 1) as nat, bo, w) {
            lemma_marshal_extends(ps[n - 1], bo, w1);
            if let Ok(w2) = marshal_spec(ps[n - 1], bo, w1) {
                lemma_extends_trans(marshal_seq(ps, i, bo, w)->Ok_0, w1, w2);
            }
        }
    }
}

/// Entries that are written one after the other add behind what was there.
pub proof fn lemma_marshal_entries_extends(
    es: Seq<(SpecParam, SpecParam)>,
    n: nat,
    bo: ByteOrder,
    w: Wire,
)
    requires
        n <= es.len(),
    ensures
        marshal_entries(es, n, bo, w) matches Ok(w1) ==> w1.extends(w),
    decreases es, n,
{
    if n > 0 {
        lemma_marshal_entries_step(es, (n - 1) as nat, bo, w);
        lemma_marshal_entries_extends(es, (n - 1) as nat, bo, w);
        if let Ok(w1) = marshal_entries(es, (n - 1) as nat, bo, w) {
            lemma_pad_put(w1, 8, Seq::empty());
            lemma_extends_trans(w, w1, w1.pad(8));
            lemma_marshal_extends(es[n - 1].0, bo, w1.pad(8));
            if let Ok(w2) = marshal_spec(es[n - 1].0, bo, w1.pad(8)) {
                lemma_extends_trans(w, w1.pad(8), w2);
                lemma_marshal_extends(es[n - 1].1, bo, w2);
                if let Ok(w3) = marshal_spec(es[n - 1].1, bo, w2) {
                    lemma_extends_trans(w, w2, w3);
                }
            }
        }
    } else if es.len() > 0 {
        lemma_marshal_entries_step(es, 0, bo, w);
    }
}

/// The wire after the first entries is a beginning of the wire after more of them.
pub proof fn lemma_marshal_entries_mono(
    es: Seq<(SpecParam, SpecParam)>,
    i: nat,
    n: nat,
    bo: ByteOrder,
    w: Wire,
)
    requires
        i <= n <= es.len(),
    ensures
        marshal_entries(es, n, bo, w) matches Ok(wn) ==> marshal_entries(es, i, bo, w) matches Ok(
            wi,
        ) && wn.extends(wi),
    decreases es, n - i,
{
    if i < n {
        lemma_marshal_entries_step(es, (n - 1) as nat, bo, w);
        lemma_marshal_entries_mono(es, i, (n - 1) as nat, bo, w);
        if let Ok(w1) = marshal_entries(es, (n - 1) as nat, bo, w) {
            let wi = marshal_entries(es, i, bo, w)->Ok_0;
            lemma_pad_put(w1, 8, Seq::empty());
            lemma_extends_trans(wi, w1, w1.pad(8));
            lemma_marshal_extends(es[n - 1].0, bo, w1.pad(8));
            if let Ok(w2) = marshal_spec(es[n - 1].0, bo, w1.pad(8)) {
                lemma_extends_trans(wi, w1.pad(8), w2);
                lemma_marshal_extends(es[n - 1].1, bo, w2);
                if let Ok(w3) = marshal_spec(es[n - 1].1, bo, w2) {
                    lemma_extends_trans(wi, w2, w3);
                }
            }
        }
    }
}

/// Whether the bytes `b` are, from `from` on, the bytes of `w`; behind
/// the bytes of `w` there may be more.
pub open spec fn holds(b: Seq<u8>, w: Wire, from: int) -> bool {
    b.len() >= w.buf.len() && forall|i: int| from <= i < w.buf.len() ==> #[trigger] b[i] == w.buf[i]
}

/// What holds a wire holds every wire that this wire extends, from as far
/// on or further.
pub proof fn lemma_holds_less(b: Seq<u8>, w: Wire, from: int, less: Wire, later: int)
    requires
        holds(b, w, from),
        w.extends(less),
        from <= later,
        0 <= later,
    ensures
        holds(b, less, later),
{
    assert forall|i: int| later <= i < less.buf.len() implies #[trigger] b[i] == less.buf[i] by {
        assert(less.buf[i] == w.buf.subrange(0, less.buf.len() as int)[i]);
    }
}

/// The padding that was written is read as padding.
pub proof fn lemma_read_padding(b: Seq<u8>, w: Wire, align: nat)
    requires
        align == 1 || align == 2 || align == 4 || align == 8,
        holds(b, w.pad(align), w.buf.len() as int),
    ensures
        align_offset_spec(align, b, w.buf.len() as int) == Ok::<usize, UnmarshalError>(
            padding_for(align, w.buf.len()) as usize,
        ),
        padding_for(align, w.buf.len()) < align,
        w.pad(align).buf.len() == w.buf.len() + padding_for(align, w.buf.len()),
        w.pad(align).buf.len() % align == 0,
{
    let padding = padding_for(align, w.buf.len());
    assert forall|i: int| w.buf.len() <= i < w.buf.len() + padding implies #[trigger] b[i]
        == 0 by {
        assert(b[i] == w.pad(align).buf[i]);
    }
}

/// The bytes that were written behind a wire stand in what holds the result.
pub proof fn lemma_holds_put(b: Seq<u8>, w: Wire, bytes: Seq<u8>, from: int)
    requires
        holds(b, w.put(bytes), from),
        from <= w.buf.len(),
    ensures
        b.subrange(w.buf.len() as int, w.buf.len() + bytes.len() as int) == bytes,
        rest(b, w.buf.len() as int).len() >= bytes.len(),
        rest(b, w.buf.len() as int).subrange(0, bytes.len() as int) == bytes,
        forall|i: int| 0 <= i < bytes.len() ==> rest(b, w.buf.len() as int)[i] == #[trigger] bytes[i],
{
    let at = w.buf.len() as int;
    assert forall|i: int| 0 <= i < bytes.len() implies b[at + i] == #[trigger] bytes[i] by {
        assert(b[at + i] == w.put(bytes).buf[at + i]);
    }
    assert(b.subrange(at, at + bytes.len()) =~= bytes);
    assert(rest(b, at).subrange(0, bytes.len() as int) =~= bytes);
}

/// A number that was written is read as that number.
pub proof fn lemma_read_ints(bo: ByteOrder, x: Seq<u8>, a: u16, b: u32, c: u64)
    ensures
        x.len() >= 2 && x.subrange(0, 2) == util::u16_bytes(bo, a) ==> util::u16_of(bo, x) == a,
        x.len() >= 4 && x.subrange(0, 4) == util::u32_bytes(bo, b) ==> util::u32_of(bo, x) == b,
        x.len() >= 8 && x.subrange(0, 8) == util::u64_bytes(bo, c) ==> util::u64_of(bo, x) == c,
{
    reveal(util::u16_of);
    reveal(util::u32_of);
    reveal(util::u64_of);
    if x.len() >= 2 && x.subrange(0, 2) == util::u16_bytes(bo, a) {
        util::lemma_u16_round_trip(bo, a);
        let y = x.subrange(0, 2);
        assert(y[0] == x[0] && y[1] == x[1]);
    }
    if x.len() >= 4 && x.subrange(0, 4) == util::u32_bytes(bo, b) {
        util::lemma_u32_round_trip(bo, b);
        let y = x.subrange(0, 4);
        assert(y[0] == x[0] && y[1] == x[1] && y[2] == x[2] && y[3] == x[3]);
    }
    if x.len() >= 8 && x.subrange(0, 8) == util::u64_bytes(bo, c) {
        util::lemma_u64_round_trip(bo, c);
        let y = x.subrange(0, 8);
        assert(y[0] == x[0] && y[1] == x[1] && y[2] == x[2] && y[3] == x[3]);
        assert(y[4] == x[4] && y[5] == x[5] && y[6] == x[6] && y[7] == x[7]);
    }
}

/// A string that was written is read as that string.
pub proof fn lemma_read_string(bo: ByteOrder, x: Seq<u8>, s: Seq<char>)
    requires
        encode_utf8(s).len() <= u32::MAX,
        x.len() <= usize::MAX,
        x.len() >= string_wire(bo, s).len(),
        x.subrange(0, string_wire(bo, s).len() as int) == string_wire(bo, s),
    ensures
        unmarshal_str_spec(bo, x) == Ok::<(usize, Seq<char>), UnmarshalError>(
            ((encode_utf8(s).len() + 5) as usize, s),
        ),
        string_wire(bo, s).len() == encode_utf8(s).len() + 5,
{
    let text = encode_utf8(s);
    let len = text.len() as u32;
    let wire = string_wire(bo, s);
    util::lemma_u32_round_trip(bo, len);
    assert forall|i: int| 0 <= i < wire.len() implies x[i] == #[trigger] wire[i] by {
        assert(x.subrange(0, wire.len() as int)[i] == x[i]);
    }
    assert(x.subrange(0, 4) =~= util::u32_bytes(bo, len));
    lemma_read_ints(bo, x, 0, len, 0);
    assert(x.subrange(4, 4 + len) =~= text) by {
        assert forall|i: int| 0 <= i < text.len() implies x.subrange(4, 4 + len)[i] == text[i] by {
            assert(x[4 + i] == wire[4 + i]);
        }
    }
    assert(x[4 + len] == wire[4 + len]);
    vstd::utf8::encode_utf8_valid_utf8(s);
    vstd::utf8::encode_utf8_decode_utf8(s);
}

/// A signature that was written is read as that signature.
pub proof fn lemma_read_signature(x: Seq<u8>, s: Seq<char>)
    requires
        encode_utf8(s).len() <= 255,
        x.len() >= signature_wire(s).len(),
        x.subrange(0, signature_wire(s).len() as int) == signature_wire(s),
    ensures
        unmarshal_signature_spec(x) == Ok::<(usize, Seq<char>), UnmarshalError>(
            ((encode_utf8(s).len() + 2) as usize, s),
        ),
        signature_wire(s).len() == encode_utf8(s).len() + 2,
{
    let text = encode_utf8(s);
    let len = text.len() as int;
    let wire = signature_wire(s);
    assert forall|i: int| 0 <= i < wire.len() implies x[i] == #[trigger] wire[i] by {
        assert(x.subrange(0, wire.len() as int)[i] == x[i]);
    }
    assert(x[0] == wire[0]);
    assert(x.subrange(1, 1 + len) =~= text) by {
        assert forall|i: int| 0 <= i < text.len() implies x.subrange(1, 1 + len)[i] == text[i] by {
            assert(x[1 + i] == wire[1 + i]);
        }
    }
    assert(x[1 + len] == wire[1 + len]);
    vstd::utf8::encode_utf8_valid_utf8(s);
    vstd::utf8::encode_utf8_decode_utf8(s);
}

/// The basic type of a value of a basic type.
pub open spec fn base_of(p: SpecParam) -> signature::Base {
    match p.ty() {
        SpecType::Base(b) => b,
        _ => signature::Base::Byte,
    }
}

/// What a value of a basic type that is written comes to: padding to its
/// alignment and its bytes.
pub proof fn lemma_base_layout(b: Seq<u8>, w: Wire, align: nat, bytes: Seq<u8>)
    requires
        align == 1 || align == 2 || align == 4 || align == 8,
        holds(b, w.pad(align).put(bytes), w.buf.len() as int),
    ensures
        align_offset_spec(align, b, w.buf.len() as int) == Ok::<usize, UnmarshalError>(
            padding_for(align, w.buf.len()) as usize,
        ),
        padding_for(align, w.buf.len()) < align,
        w.pad(align).put(bytes).buf.len() == w.buf.len() + padding_for(align, w.buf.len())
            + bytes.len(),
        rest(b, w.pad(align).buf.len() as int).len() >= bytes.len(),
        rest(b, w.pad(align).buf.len() as int).subrange(0, bytes.len() as int)
            == bytes,
        forall|i: int|
            0 <= i < bytes.len() ==> rest(b, w.pad(align).buf.len() as int)[i]
                == #[trigger] bytes[i],
        b.len() - w.pad(align).buf.len() >= bytes.len(),
        w.pad(align).buf.len() == w.buf.len() + padding_for(align, w.buf.len()),
{
    lemma_pad_put(w.pad(align), 1, bytes);
    lemma_holds_less(b, w.pad(align).put(bytes), w.buf.len() as int, w.pad(align), w.buf.len() as int);
    lemma_read_padding(b, w, align);
    lemma_holds_put(b, w.pad(align), bytes, w.buf.len() as int);
}

/// A 16-bit number that was written is read as that number.
pub proof fn lemma_u16_value_round_trip(p: SpecParam, bo: ByteOrder, w: Wire, b: Seq<u8>, fds: Seq<UnixFd>)
    requires
        p is Int16 || p is Uint16,
        marshal_base_spec(p, bo, w) matches Ok(w1) && holds(b, w1, w.buf.len() as int),
    ensures
        unmarshal_base_spec(base_of(p), bo, b, w.buf.len() as int, fds) == Ok::<
            (int, SpecParam),
            UnmarshalError,
        >((marshal_base_spec(p, bo, w)->Ok_0.buf.len() - w.buf.len(), p)),
{
    match p {
        SpecParam::Int16(v) => {
            let bytes = util::u16_bytes(bo, util::i16_bits(v));
            assert(marshal_base_spec(p, bo, w) == Ok::<Wire, MarshalError>(w.pad(2).put(bytes))) by {
                reveal(marshal_base_spec);
            }
            util::lemma_bytes_len(bo);
            lemma_base_layout(b, w, 2, bytes);
            lemma_read_ints(bo, rest(b, w.pad(2).buf.len() as int), util::i16_bits(v), 0, 0);
            assert(unmarshal_base_spec(base_of(p), bo, b, w.buf.len() as int, fds) == Ok::<
                (int, SpecParam),
                UnmarshalError,
            >((w.pad(2).put(bytes).buf.len() - w.buf.len(), p))) by {
                reveal(unmarshal_base_spec);
            }
        },
        SpecParam::Uint16(v) => {
            let bytes = util::u16_bytes(bo, v);
            assert(marshal_base_spec(p, bo, w) == Ok::<Wire, MarshalError>(w.pad(2).put(bytes))) by {
                reveal(marshal_base_spec);
            }
            util::lemma_bytes_len(bo);
            lemma_base_layout(b, w, 2, bytes);
            lemma_read_ints(bo, rest(b, w.pad(2).buf.len() as int), v, 0, 0);
            assert(unmarshal_base_spec(base_of(p), bo, b, w.buf.len() as int, fds) == Ok::<
                (int, SpecParam),
                UnmarshalError,
            >((w.pad(2).put(bytes).buf.len() - w.buf.len(), p))) by {
                reveal(unmarshal_base_spec);
            }
        },
        _ => {},
    }
}

/// A 32-bit number that was written is read as that number.
pub proof fn lemma_u32_value_round_trip(p: SpecParam, bo: ByteOrder, w: Wire, b: Seq<u8>, fds: Seq<UnixFd>)
    requires
        p is Int32 || p is Uint32,
        marshal_base_spec(p, bo, w) matches Ok(w1) && holds(b, w1, w.buf.len() as int),
    ensures
        unmarshal_base_spec(base_of(p), bo, b, w.buf.len() as int, fds) == Ok::<
            (int, SpecParam),
            UnmarshalError,
        >((marshal_base_spec(p, bo, w)->Ok_0.buf.len() - w.buf.len(), p)),
{
    match p {
        SpecParam::Int32(v) => {
            let bytes = util::u32_bytes(bo, util::i32_bits(v));
            assert(marshal_base_spec(p, bo, w) == Ok::<Wire, MarshalError>(w.pad(4).put(bytes))) by {
                reveal(marshal_base_spec);
            }
            util::lemma_bytes_len(bo);
            lemma_base_layout(b, w, 4, bytes);
            lemma_read_ints(bo, rest(b, w.pad(4).buf.len() as int), 0, util::i32_bits(v), 0);
            assert(unmarshal_base_spec(base_of(p), bo, b, w.buf.len() as int, fds) == Ok::<
                (int, SpecParam),
                UnmarshalError,
            >((w.pad(4).put(bytes).buf.len() - w.buf.len(), p))) by {
                reveal(unmarshal_base_spec);
            }
        },
        SpecParam::Uint32(v) => {
            let bytes = util::u32_bytes(bo, v);
            assert(marshal_base_spec(p, bo, w) == Ok::<Wire, MarshalError>(w.pad(4).put(bytes))) by {
                reveal(marshal_base_spec);
            }
            util::lemma_bytes_len(bo);
            lemma_base_layout(b, w, 4, bytes);
            lemma_read_ints(bo, rest(b, w.pad(4).buf.len() as int), 0, v, 0);
            assert(unmarshal_base_spec(base_of(p), bo, b, w.buf.len() as int, fds) == Ok::<
                (int, SpecParam),
                UnmarshalError,
            >((w.pad(4).put(bytes).buf.len() - w.buf.len(), p))) by {
                reveal(unmarshal_base_spec);
            }
        },
        _ => {},
    }
}

/// A 64-bit number that was written is read as that number.
pub proof fn lemma_u64_value_round_trip(p: SpecParam, bo: ByteOrder, w: Wire, b: Seq<u8>, fds: Seq<UnixFd>)
    requires
        p is Int64 || p is Uint64 || p is Double,
        marshal_base_spec(p, bo, w) matches Ok(w1) && holds(b, w1, w.buf.len() as int),
    ensures
        unmarshal_base_spec(base_of(p), bo, b, w.buf.len() as int, fds) == Ok::<
            (int, SpecParam),
            UnmarshalError,
        >((marshal_base_spec(p, bo, w)->Ok_0.buf.len() - w.buf.len(), p)),
{
    match p {
        SpecParam::Int64(v) => {
            let bytes = util::u64_bytes(bo, util::i64_bits(v));
            assert(marshal_base_spec(p, bo, w) == Ok::<Wire, MarshalError>(w.pad(8).put(bytes))) by {
                reveal(marshal_base_spec);
            }
            util::lemma_bytes_len(bo);
            lemma_base_layout(b, w, 8, bytes);
            lemma_read_ints(bo, rest(b, w.pad(8).buf.len() as int), 0, 0, util::i64_bits(v));
            assert(unmarshal_base_spec(base_of(p), bo, b, w.buf.len() as int, fds) == Ok::<
                (int, SpecParam),
                UnmarshalError,
            >((w.pad(8).put(bytes).buf.len() - w.buf.len(), p))) by {
                reveal(unmarshal_base_spec);
            }
        },
        SpecParam::Uint64(v) => {
            let bytes = util::u64_bytes(bo, v);
            assert(marshal_base_spec(p, bo, w) == Ok::<Wire, MarshalError>(w.pad(8).put(bytes))) by {
                reveal(marshal_base_spec);
            }
            util::lemma_bytes_len(bo);
            lemma_base_layout(b, w, 8, bytes);
            lemma_read_ints(bo, rest(b, w.pad(8).buf.len() as int), 0, 0, v);
            assert(unmarshal_base_spec(base_of(p), bo, b, w.buf.len() as int, fds) == Ok::<
                (int, SpecParam),
                UnmarshalError,
            >((w.pad(8).put(bytes).buf.len() - w.buf.len(), p))) by {
                reveal(unmarshal_base_spec);
            }
        },
        SpecParam::Double(v) => {
            let bytes = util::u64_bytes(bo, v);
            assert(marshal_base_spec(p, bo, w) == Ok::<Wire, MarshalError>(w.pad(8).put(bytes))) by {
                reveal(marshal_base_spec);
            }
            util::lemma_bytes_len(bo);
            lemma_base_layout(b, w, 8, bytes);
            lemma_read_ints(bo, rest(b, w.pad(8).buf.len() as int), 0, 0, v);
            assert(unmarshal_base_spec(base_of(p), bo, b, w.buf.len() as int, fds) == Ok::<
                (int, SpecParam),
                UnmarshalError,
            >((w.pad(8).put(bytes).buf.len() - w.buf.len(), p))) by {
                reveal(unmarshal_base_spec);
            }
        },
        _ => {},
    }
}

/// A byte that was written is read as that byte.
pub proof fn lemma_byte_round_trip(p: SpecParam, bo: ByteOrder, w: Wire, b: Seq<u8>, fds: Seq<UnixFd>)
    requires
        p is Byte,
        marshal_base_spec(p, bo, w) matches Ok(w1) && holds(b, w1, w.buf.len() as int),
    ensures
        unmarshal_base_spec(base_of(p), bo, b, w.buf.len() as int, fds) == Ok::<
            (int, SpecParam),
            UnmarshalError,
        >((marshal_base_spec(p, bo, w)->Ok_0.buf.len() - w.buf.len(), p)),
{
    let v = p->Byte_0;
    let bytes = seq![v];
    assert(marshal_base_spec(p, bo, w) == Ok::<Wire, MarshalError>(w.pad(1).put(bytes))) by {
        reveal(marshal_base_spec);
        assert(w.put(seq![v]) =~= w.pad(1).put(seq![v]));
    }
    lemma_base_layout(b, w, 1, bytes);
    assert(rest(b, w.pad(1).buf.len() as int)[0] == bytes[0]);
    assert(unmarshal_base_spec(base_of(p), bo, b, w.buf.len() as int, fds) == Ok::<
        (int, SpecParam),
        UnmarshalError,
    >((w.pad(1).put(bytes).buf.len() - w.buf.len(), p))) by {
        reveal(unmarshal_base_spec);
    }
}

/// A boolean or a file descriptor that was written is read as it was.
pub proof fn lemma_word_round_trip(
    p: SpecParam,
    bo: ByteOrder,
    w: Wire,
    b: Seq<u8>,
    fds: Seq<UnixFd>,
)
    requires
        p is Boolean || p is UnixFd,
        marshal_base_spec(p, bo, w) matches Ok(w1) && holds(b, w1, w.buf.len() as int)
            && w1.fds.is_prefix_of(fds),
    ensures
        unmarshal_base_spec(base_of(p), bo, b, w.buf.len() as int, fds) == Ok::<
            (int, SpecParam),
            UnmarshalError,
        >((marshal_base_spec(p, bo, w)->Ok_0.buf.len() - w.buf.len(), p)),
{
    reveal(marshal_base_spec);
    reveal(unmarshal_base_spec);
    match p {
        SpecParam::Boolean(v) => {
            let n: u32 = if v {
                1
            } else {
                0
            };
            util::lemma_bytes_len(bo);
            lemma_base_layout(b, w, 4, util::u32_bytes(bo, n));
            lemma_read_ints(bo, rest(b, w.pad(4).buf.len() as int), 0, n, 0);
        },
        SpecParam::UnixFd(fd) => {
            let n = w.fds.len() as u32;
            let w1 = marshal_base_spec(p, bo, w)->Ok_0;
            util::lemma_bytes_len(bo);
            assert(w1.buf == w.pad(4).put(util::u32_bytes(bo, n)).buf);
            assert(holds(b, w.pad(4).put(util::u32_bytes(bo, n)), w.buf.len() as int));
            lemma_base_layout(b, w, 4, util::u32_bytes(bo, n));
            lemma_read_ints(bo, rest(b, w.pad(4).buf.len() as int), 0, n, 0);
            assert(fds[n as int] == w1.fds[n as int]) by {
                assert(w1.fds == fds.subrange(0, w1.fds.len() as int));
            }
        },
        _ => {},
    }
}

/// A string or an object path that was written is read as it was.
pub proof fn lemma_string_round_trip(p: SpecParam, bo: ByteOrder, w: Wire, b: Seq<u8>, fds: Seq<UnixFd>)
    requires
        p is String || p is ObjectPath,
        b.len() <= usize::MAX,
        marshal_base_spec(p, bo, w) matches Ok(w1) && holds(b, w1, w.buf.len() as int),
    ensures
        unmarshal_base_spec(base_of(p), bo, b, w.buf.len() as int, fds) == Ok::<
            (int, SpecParam),
            UnmarshalError,
        >((marshal_base_spec(p, bo, w)->Ok_0.buf.len() - w.buf.len(), p)),
{
    let s = if p is String {
        p->String_0
    } else {
        p->ObjectPath_0
    };
    let bytes = string_wire(bo, s);
    assert(marshal_base_spec(p, bo, w) == Ok::<Wire, MarshalError>(w.pad(4).put(bytes))
        && encode_utf8(s).len() <= u32::MAX && (p is ObjectPath ==> valid_object_path(s))) by {
        reveal(marshal_base_spec);
    }
    lemma_base_layout(b, w, 4, bytes);
    lemma_read_string(bo, rest(b, w.pad(4).buf.len() as int), s);
    assert(unmarshal_base_spec(base_of(p), bo, b, w.buf.len() as int, fds) == Ok::<
        (int, SpecParam),
        UnmarshalError,
    >((w.pad(4).put(bytes).buf.len() - w.buf.len(), p))) by {
        reveal(unmarshal_base_spec);
    }
}

/// A signature that was written is read as it was.
pub proof fn lemma_signature_value_round_trip(
    p: SpecParam,
    bo: ByteOrder,
    w: Wire,
    b: Seq<u8>,
    fds: Seq<UnixFd>,
)
    requires
        p is Signature,
        b.len() <= usize::MAX,
        marshal_base_spec(p, bo, w) matches Ok(w1) && holds(b, w1, w.buf.len() as int),
    ensures
        unmarshal_base_spec(base_of(p), bo, b, w.buf.len() as int, fds) == Ok::<
            (int, SpecParam),
            UnmarshalError,
        >((marshal_base_spec(p, bo, w)->Ok_0.buf.len() - w.buf.len(), p)),
{
    let s = p->Signature_0;
    let bytes = signature_wire(s);
    assert(marshal_base_spec(p, bo, w) == Ok::<Wire, MarshalError>(w.pad(1).put(bytes))
        && signature_fault(s) is None) by {
        reveal(marshal_base_spec);
        assert(w.put(bytes) =~= w.pad(1).put(bytes));
    }
    signature::lemma_ascii_signature(s);
    vstd::utf8::is_ascii_chars_encode_utf8(s);
    lemma_base_layout(b, w, 1, bytes);
    lemma_read_signature(rest(b, w.pad(1).buf.len() as int), s);
    assert(unmarshal_base_spec(base_of(p), bo, b, w.buf.len() as int, fds) == Ok::<
        (int, SpecParam),
        UnmarshalError,
    >((w.pad(1).put(bytes).buf.len() - w.buf.len(), p))) by {
        reveal(unmarshal_base_spec);
    }
}

/// A value of a basic type that was written is read as it was: whatever
/// holds the bytes that were written gives the value back, with as many
/// bytes used as were written.
pub proof fn lemma_base_round_trip(
    p: SpecParam,
    bo: ByteOrder,
    w: Wire,
    b: Seq<u8>,
    fds: Seq<UnixFd>,
)
    requires
        p.is_base(),
        b.len() <= usize::MAX,
        marshal_base_spec(p, bo, w) matches Ok(w1) && holds(b, w1, w.buf.len() as int)
            && w1.fds.is_prefix_of(fds),
    ensures
        unmarshal_base_spec(base_of(p), bo, b, w.buf.len() as int, fds) == Ok::<
            (int, SpecParam),
            UnmarshalError,
        >((marshal_base_spec(p, bo, w)->Ok_0.buf.len() - w.buf.len(), p)),
{
    if p is Boolean || p is UnixFd {
        lemma_word_round_trip(p, bo, w, b, fds);
    } else if p is String || p is ObjectPath {
        lemma_string_round_trip(p, bo, w, b, fds);
    } else if p is Signature {
        lemma_signature_value_round_trip(p, bo, w, b, fds);
    } else if p is Byte {
        lemma_byte_round_trip(p, bo, w, b, fds);
    } else if p is Int16 || p is Uint16 {
        lemma_u16_value_round_trip(p, bo, w, b, fds);
    } else if p is Int32 || p is Uint32 {
        lemma_u32_value_round_trip(p, bo, w, b, fds);
    } else {
        lemma_u64_value_round_trip(p, bo, w, b, fds);
    }
}

/// The head of an array or dict as it stands on the wire in the end:
/// padding to 4, the length of the elements, padding to the first element.
pub open spec fn head_wire(bo: ByteOrder, w: Wire, align: nat, len: u32) -> Wire {
    w.pad(4).put(util::u32_bytes(bo, len)).pad(align)
}

/// A finished array or dict begins with its head and goes on as its
/// elements were written.
pub proof fn lemma_closed_head(bo: ByteOrder, w: Wire, align: nat, end: Wire)
    requires
        end.extends(w.open_collection(align)),
        close_collection(bo, w, align, Ok(end)) is Ok,
    ensures
        ({
            let w1 = close_collection(bo, w, align, Ok(end))->Ok_0;
            let opened = w.open_collection(align);
            let len = end.buf.len() - opened.buf.len();
            &&& 0 <= len <= crate::wire::marshal::MAX_ARRAY_LEN
            &&& w1.extends(head_wire(bo, w, align, len as u32))
            &&& head_wire(bo, w, align, len as u32).buf.len() == opened.buf.len()
            &&& w1.buf.len() == end.buf.len()
            &&& w1.fds == end.fds
            &&& forall|i: int| opened.buf.len() <= i < end.buf.len() ==> w1.buf[i] == end.buf[i]
        }),
{
    let w1 = close_collection(bo, w, align, Ok(end))->Ok_0;
    let opened = w.open_collection(align);
    let len = (end.buf.len() - opened.buf.len()) as u32;
    let head = head_wire(bo, w, align, len);
    let len_pos = w.pad(4).buf.len() as int;
    util::lemma_bytes_len(bo);
    lemma_open_collection(w, align);
    assert(head.buf.len() == opened.buf.len());
    assert forall|i: int| 0 <= i < head.buf.len() implies w1.buf[i] == head.buf[i] by {
        assert(opened.buf[i] == end.buf.subrange(0, opened.buf.len() as int)[i]);
        if i < len_pos {
        } else if i < len_pos + 4 {
        } else {
        }
    }
    assert(head.buf =~= w1.buf.subrange(0, head.buf.len() as int));
    assert(head.fds =~= w1.fds.subrange(0, head.fds.len() as int)) by {
        assert(opened.fds == end.fds.subrange(0, opened.fds.len() as int));
    }
}

/// The head of an array or dict that was written is read as it was: the
/// bytes up to the first element and the length of the elements.
pub proof fn lemma_read_head(bo: ByteOrder, w: Wire, align: nat, len: u32, b: Seq<u8>, more: int)
    requires
        align == 1 || align == 2 || align == 4 || align == 8,
        holds(b, head_wire(bo, w, align, len), w.buf.len() as int),
        b.len() >= head_wire(bo, w, align, len).buf.len() + len,
    ensures
        collection_head(bo, w.buf.len() as int, b, align) == Ok::<(int, int), (int, UnmarshalError)>(
            (head_wire(bo, w, align, len).buf.len() - w.buf.len(), len as int),
        ),
        head_wire(bo, w, align, len).buf.len() - w.buf.len() >= 4,
{
    reveal(collection_head);
    let bytes = util::u32_bytes(bo, len);
    let head = head_wire(bo, w, align, len);
    let at_body = w.pad(4).put(bytes);
    util::lemma_bytes_len(bo);
    lemma_pad_put(at_body, align, Seq::empty());
    lemma_holds_less(b, head, w.buf.len() as int, at_body, w.buf.len() as int);
    lemma_base_layout(b, w, 4, bytes);
    lemma_read_ints(bo, rest(b, w.pad(4).buf.len() as int), 0, len, 0);
    lemma_holds_less(b, head, w.buf.len() as int, head, at_body.buf.len() as int);
    lemma_read_padding(b, at_body, align);
}

/// File descriptors that are a beginning of a beginning are a beginning.
pub proof fn lemma_fds_prefix(a: Seq<UnixFd>, b: Seq<UnixFd>, c: Seq<UnixFd>)
    requires
        a.is_prefix_of(b),
        b.is_prefix_of(c),
    ensures
        a.is_prefix_of(c),
{
}

/// Every alignment is 1, 2, 4 or 8.
pub proof fn lemma_alignment(t: SpecType)
    ensures
        t.alignment() == 1 || t.alignment() == 2 || t.alignment() == 4 || t.alignment() == 8,
{
}

/// What was written can be read. Where the value `p` was written behind
/// `w`, whatever holds the bytes that were added, at the place where they
/// were added, gives `p` back when a value of the type of `p` is read
/// there, with as many bytes used as were added.
pub proof fn lemma_round_trip(p: SpecParam, bo: ByteOrder, w: Wire, b: Seq<u8>, fds: Seq<UnixFd>)
    requires
        b.len() <= usize::MAX,
        marshal_spec(p, bo, w) matches Ok(w1) && holds(b, w1, w.buf.len() as int)
            && w1.fds.is_prefix_of(fds),
    ensures
        unmarshal_spec(p.ty(), bo, b, w.buf.len() as int, fds) == Ok::<
            (int, SpecParam),
            UnmarshalError,
        >((marshal_spec(p, bo, w)->Ok_0.buf.len() - w.buf.len(), p)),
    decreases p, 0nat,
{
    match p {
        SpecParam::Struct(fs) => {
            lemma_struct_round_trip(fs, bo, w, b, fds);
        },
        SpecParam::Array(t, vs) => {
            lemma_array_round_trip(t, vs, bo, w, b, fds);
        },
        SpecParam::Dict(k, v, es) => {
            lemma_dict_round_trip(k, v, es, bo, w, b, fds);
        },
        SpecParam::Variant(t, v) => {
            lemma_variant_round_trip(t, *v, bo, w, b, fds);
        },
        _ => {
            lemma_marshal_is_base(p, bo, w);
            lemma_unmarshal_containers(bo, b, w.buf.len() as int, fds);
            lemma_base_round_trip(p, bo, w, b, fds);
        },
    }
}

/// A struct that was written can be read.
pub proof fn lemma_struct_round_trip(
    fs: Seq<SpecParam>,
    bo: ByteOrder,
    w: Wire,
    b: Seq<u8>,
    fds: Seq<UnixFd>,
)
    requires
        b.len() <= usize::MAX,
        marshal_spec(SpecParam::Struct(fs), bo, w) matches Ok(w1) && holds(
            b,
            w1,
            w.buf.len() as int,
        ) && w1.fds.is_prefix_of(fds),
    ensures
        unmarshal_spec(SpecParam::Struct(fs).ty(), bo, b, w.buf.len() as int, fds) == Ok::<
            (int, SpecParam),
            UnmarshalError,
        >((marshal_spec(SpecParam::Struct(fs), bo, w)->Ok_0.buf.len() - w.buf.len(), SpecParam::Struct(fs))),
    decreases fs, fs.len() + 1,
{
    let p = SpecParam::Struct(fs);
    let w1 = marshal_spec(p, bo, w)->Ok_0;
    let at = w.buf.len() as int;
    lemma_marshal_containers(bo, w);
    lemma_unmarshal_containers(bo, b, at, fds);
    let start = w.pad(8);
    let types = params_types(fs);
    lemma_marshal_seq_extends(fs, fs.len(), bo, start);
    lemma_holds_less(b, w1, at, start, at);
    lemma_read_padding(b, w, 8);
    lemma_fields_round_trip(fs, fs.len(), bo, start, b, fds);
    lemma_params_types(fs);
    lemma_unmarshal_fields_step(types, fs.len() as int, bo, b, w1.buf.len() as int, fds);
    assert(fs.take(fs.len() as int) + Seq::<SpecParam>::empty() =~= fs);
}

/// An array that was written can be read.
pub proof fn lemma_array_round_trip(
    t: SpecType,
    vs: Seq<SpecParam>,
    bo: ByteOrder,
    w: Wire,
    b: Seq<u8>,
    fds: Seq<UnixFd>,
)
    requires
        b.len() <= usize::MAX,
        marshal_spec(SpecParam::Array(t, vs), bo, w) matches Ok(w1) && holds(
            b,
            w1,
            w.buf.len() as int,
        ) && w1.fds.is_prefix_of(fds),
    ensures
        unmarshal_spec(SpecType::Array(Box::new(t)), bo, b, w.buf.len() as int, fds) == Ok::<
            (int, SpecParam),
            UnmarshalError,
        >(
            (
                marshal_spec(SpecParam::Array(t, vs), bo, w)->Ok_0.buf.len() - w.buf.len(),
                SpecParam::Array(t, vs),
            ),
        ),
    decreases vs, vs.len() + 1,
{
    let p = SpecParam::Array(t, vs);
    let w1 = marshal_spec(p, bo, w)->Ok_0;
    let at = w.buf.len() as int;
    lemma_marshal_containers(bo, w);
    lemma_unmarshal_containers(bo, b, at, fds);
    let a = t.alignment();
    let opened = w.open_collection(a);
    let end = marshal_seq(vs, vs.len(), bo, opened)->Ok_0;
    let len = (end.buf.len() - opened.buf.len()) as u32;
    lemma_alignment(t);
    lemma_marshal_seq_extends(vs, vs.len(), bo, opened);
    lemma_closed_head(bo, w, a, end);
    lemma_holds_less(b, w1, at, head_wire(bo, w, a, len), at);
    lemma_read_head(bo, w, a, len, b, 0);
    let inner = b.subrange(0, end.buf.len() as int);
    assert(holds(inner, end, opened.buf.len() as int)) by {
        assert forall|i: int| opened.buf.len() <= i < end.buf.len() implies #[trigger] inner[i]
            == end.buf[i] by {
            assert(b[i] == w1.buf[i]);
        }
    }
    lemma_elems_round_trip(vs, vs.len(), t, bo, opened, inner, fds);
    lemma_unmarshal_elems_step(t, bo, inner, end.buf.len() as int, fds);
    assert(vs.take(vs.len() as int) + Seq::<SpecParam>::empty() =~= vs);
}

/// A dict that was written can be read.
pub proof fn lemma_dict_round_trip(
    k: signature::Base,
    v: SpecType,
    es: Seq<(SpecParam, SpecParam)>,
    bo: ByteOrder,
    w: Wire,
    b: Seq<u8>,
    fds: Seq<UnixFd>,
)
    requires
        b.len() <= usize::MAX,
        marshal_spec(SpecParam::Dict(k, v, es), bo, w) matches Ok(w1) && holds(
            b,
            w1,
            w.buf.len() as int,
        ) && w1.fds.is_prefix_of(fds),
    ensures
        unmarshal_spec(SpecType::Dict(k, Box::new(v)), bo, b, w.buf.len() as int, fds) == Ok::<
            (int, SpecParam),
            UnmarshalError,
        >(
            (
                marshal_spec(SpecParam::Dict(k, v, es), bo, w)->Ok_0.buf.len() - w.buf.len(),
                SpecParam::Dict(k, v, es),
            ),
        ),
    decreases es, es.len() + 1,
{
    let p = SpecParam::Dict(k, v, es);
    let w1 = marshal_spec(p, bo, w)->Ok_0;
    let at = w.buf.len() as int;
    lemma_marshal_containers(bo, w);
    let opened = w.open_collection(8);
    let end = marshal_entries(es, es.len(), bo, opened)->Ok_0;
    let len = (end.buf.len() - opened.buf.len()) as u32;
    lemma_unmarshal_dict(k, v, bo, b, at, fds);
    lemma_marshal_entries_extends(es, es.len(), bo, opened);
    lemma_closed_head(bo, w, 8, end);
    lemma_holds_less(b, w1, at, head_wire(bo, w, 8, len), at);
    lemma_read_head(bo, w, 8, len, b, 0);
    let inner = b.subrange(0, end.buf.len() as int);
    assert(holds(inner, end, opened.buf.len() as int)) by {
        assert forall|i: int| opened.buf.len() <= i < end.buf.len() implies #[trigger] inner[i]
            == end.buf[i] by {
            assert(b[i] == w1.buf[i]);
        }
    }
    lemma_entries_round_trip(es, es.len(), k, v, bo, opened, inner, fds);
    lemma_unmarshal_entries_step(k, v, bo, inner, end.buf.len() as int, fds);
    assert(es.take(es.len() as int) + Seq::<(SpecParam, SpecParam)>::empty() =~= es);
}

/// A variant that was written can be read.
pub proof fn lemma_variant_round_trip(
    t: SpecType,
    v: SpecParam,
    bo: ByteOrder,
    w: Wire,
    b: Seq<u8>,
    fds: Seq<UnixFd>,
)
    requires
        b.len() <= usize::MAX,
        marshal_spec(SpecParam::Variant(t, Box::new(v)), bo, w) matches Ok(w1) && holds(
            b,
            w1,
            w.buf.len() as int,
        ) && w1.fds.is_prefix_of(fds),
    ensures
        unmarshal_spec(SpecType::Variant, bo, b, w.buf.len() as int, fds) == Ok::<
            (int, SpecParam),
            UnmarshalError,
        >(
            (
                marshal_spec(SpecParam::Variant(t, Box::new(v)), bo, w)->Ok_0.buf.len()
                    - w.buf.len(),
                SpecParam::Variant(t, Box::new(v)),
            ),
        ),
    decreases v, 1nat,
{
    let p = SpecParam::Variant(t, Box::new(v));
    let w1 = marshal_spec(p, bo, w)->Ok_0;
    let at = w.buf.len() as int;
    let text = signature_wire(t.text());
    let head = w.put(text);
    lemma_marshal_variant(t, v, bo, w);
    lemma_unmarshal_variant(bo, b, at, fds);
    lemma_marshal_extends(v, bo, head);
    lemma_pad_put(w, 1, text);
    lemma_holds_less(b, w1, at, head, at);
    lemma_holds_put(b, w, text, at);
    signature::lemma_text_chars(t);
    vstd::utf8::is_ascii_chars_encode_utf8(t.text());
    lemma_read_signature(rest(b, at), t.text());
    signature::lemma_parse_single(t);
    lemma_round_trip(v, bo, head, b, fds);
}

/// The members of a struct that were written can be read: reading them
/// all is reading those behind the first `n`, with the first `n` read as
/// they were written.
pub proof fn lemma_fields_round_trip(
    fs: Seq<SpecParam>,
    n: nat,
    bo: ByteOrder,
    w: Wire,
    b: Seq<u8>,
    fds: Seq<UnixFd>,
)
    requires
        n <= fs.len(),
        b.len() <= usize::MAX,
        marshal_seq(fs, fs.len(), bo, w) matches Ok(w1) && holds(b, w1, w.buf.len() as int)
            && w1.fds.is_prefix_of(fds),
    ensures
        marshal_seq(fs, n, bo, w) is Ok,
        unmarshal_fields(params_types(fs), 0, bo, b, w.buf.len() as int, fds) == match unmarshal_fields(
            params_types(fs),
            n as int,
            bo,
            b,
            marshal_seq(fs, n, bo, w)->Ok_0.buf.len() as int,
            fds,
        ) {
            Ok((m, vs)) => Ok::<(int, Seq<SpecParam>), UnmarshalError>(
                (marshal_seq(fs, n, bo, w)->Ok_0.buf.len() - w.buf.len() + m, fs.take(n as int) + vs),
            ),
            Err(e) => Err(e),
        },
    decreases fs, n,
{
    let types = params_types(fs);
    let all = marshal_seq(fs, fs.len(), bo, w)->Ok_0;
    lemma_marshal_none(bo, w);
    if n == 0 {
        match unmarshal_fields(types, 0, bo, b, w.buf.len() as int, fds) {
            Ok((m, vs)) => {
                assert(fs.take(0) + vs =~= vs);
            },
            Err(e) => {},
        }
    } else {
        let k = (n - 1) as nat;
        lemma_fields_round_trip(fs, k, bo, w, b, fds);
        lemma_marshal_seq_step(fs, k, bo, w);
        lemma_marshal_seq_mono(fs, n, fs.len(), bo, w);
        lemma_marshal_seq_mono(fs, k, n, bo, w);
        let before = marshal_seq(fs, k, bo, w)->Ok_0;
        let after = marshal_seq(fs, n, bo, w)->Ok_0;
        lemma_marshal_seq_extends(fs, k, bo, w);
        lemma_holds_less(b, all, w.buf.len() as int, after, before.buf.len() as int);
        lemma_fds_prefix(after.fds, all.fds, fds);
        lemma_round_trip(fs[k as int], bo, before, b, fds);
        lemma_params_types(fs);
        lemma_unmarshal_fields_step(types, k as int, bo, b, before.buf.len() as int, fds);
        match unmarshal_fields(types, n as int, bo, b, after.buf.len() as int, fds) {
            Ok((m, vs)) => {
                assert(fs.take(k as int) + (seq![fs[k as int]] + vs) =~= fs.take(n as int) + vs);
            },
            Err(e) => {},
        }
    }
}

/// The elements of an array that were written can be read: reading them
/// all is reading those behind the first `n`, with the first `n` read as
/// they were written.
pub proof fn lemma_elems_round_trip(
    vs: Seq<SpecParam>,
    n: nat,
    t: SpecType,
    bo: ByteOrder,
    w: Wire,
    b: Seq<u8>,
    fds: Seq<UnixFd>,
)
    requires
        n <= vs.len(),
        all_of_type(vs, t),
        b.len() <= usize::MAX,
        marshal_seq(vs, vs.len(), bo, w) matches Ok(w1) && holds(b, w1, w.buf.len() as int)
            && w1.fds.is_prefix_of(fds),
    ensures
        marshal_seq(vs, n, bo, w) is Ok,
        unmarshal_elems(t, bo, b, w.buf.len() as int, fds) == match unmarshal_elems(
            t,
            bo,
            b,
            marshal_seq(vs, n, bo, w)->Ok_0.buf.len() as int,
            fds,
        ) {
            Ok(more) => Ok::<Seq<SpecParam>, UnmarshalError>(vs.take(n as int) + more),
            Err(e) => Err(e),
        },
    decreases vs, n,
{
    let all = marshal_seq(vs, vs.len(), bo, w)->Ok_0;
    lemma_marshal_none(bo, w);
    if n == 0 {
        match unmarshal_elems(t, bo, b, w.buf.len() as int, fds) {
            Ok(more) => {
                assert(vs.take(0) + more =~= more);
            },
            Err(e) => {},
        }
    } else {
        let k = (n - 1) as nat;
        lemma_elems_round_trip(vs, k, t, bo, w, b, fds);
        lemma_marshal_seq_step(vs, k, bo, w);
        lemma_marshal_seq_mono(vs, n, vs.len(), bo, w);
        lemma_marshal_seq_mono(vs, k, n, bo, w);
        let before = marshal_seq(vs, k, bo, w)->Ok_0;
        let after = marshal_seq(vs, n, bo, w)->Ok_0;
        lemma_marshal_seq_extends(vs, k, bo, w);
        lemma_marshal_extends(vs[k as int], bo, before);
        lemma_holds_less(b, all, w.buf.len() as int, after, before.buf.len() as int);
        lemma_fds_prefix(after.fds, all.fds, fds);
        lemma_round_trip(vs[k as int], bo, before, b, fds);
        lemma_unmarshal_elems_step(t, bo, b, before.buf.len() as int, fds);
        match unmarshal_elems(t, bo, b, after.buf.len() as int, fds) {
            Ok(more) => {
                assert(vs.take(k as int) + (seq![vs[k as int]] + more) =~= vs.take(n as int)
                    + more);
            },
            Err(e) => {},
        }
    }
}

/// The entries of a dict that were written can be read: reading them all
/// is reading those behind the first `n`, with the first `n` read as they
/// were written.
pub proof fn lemma_entries_round_trip(
    es: Seq<(SpecParam, SpecParam)>,
    n: nat,
    k: signature::Base,
    v: SpecType,
    bo: ByteOrder,
    w: Wire,
    b: Seq<u8>,
    fds: Seq<UnixFd>,
)
    requires
        n <= es.len(),
        dict_fault(es, k, v) is None,
        b.len() <= usize::MAX,
        marshal_entries(es, es.len(), bo, w) matches Ok(w1) && holds(b, w1, w.buf.len() as int)
            && w1.fds.is_prefix_of(fds),
    ensures
        marshal_entries(es, n, bo, w) is Ok,
        unmarshal_entries(k, v, bo, b, w.buf.len() as int, fds) == match unmarshal_entries(
            k,
            v,
            bo,
            b,
            marshal_entries(es, n, bo, w)->Ok_0.buf.len() as int,
            fds,
        ) {
            Ok(more) => Ok::<Seq<(SpecParam, SpecParam)>, UnmarshalError>(
                es.take(n as int) + more,
            ),
            Err(e) => Err(e),
        },
    decreases es, n,
{
    let all = marshal_entries(es, es.len(), bo, w)->Ok_0;
    lemma_marshal_none(bo, w);
    if n == 0 {
        match unmarshal_entries(k, v, bo, b, w.buf.len() as int, fds) {
            Ok(more) => {
                assert(es.take(0) + more =~= more);
            },
            Err(e) => {},
        }
    } else {
        let i = (n - 1) as nat;
        lemma_entries_round_trip(es, i, k, v, bo, w, b, fds);
        lemma_marshal_entries_step(es, i, bo, w);
        lemma_marshal_entries_mono(es, n, es.len(), bo, w);
        lemma_marshal_entries_mono(es, i, n, bo, w);
        let before = marshal_entries(es, i, bo, w)->Ok_0;
        let after = marshal_entries(es, n, bo, w)->Ok_0;
        let at = before.buf.len() as int;
        lemma_marshal_entries_extends(es, i, bo, w);
        lemma_holds_less(b, all, w.buf.len() as int, after, at);
        lemma_fds_prefix(after.fds, all.fds, fds);
        lemma_entry_round_trip(es, i, k, v, bo, before, b, fds);
        lemma_unmarshal_entries_step(k, v, bo, b, at, fds);
        match unmarshal_entries(k, v, bo, b, after.buf.len() as int, fds) {
            Ok(more) => {
                assert(es.take(i as int) + (seq![es[i as int]] + more) =~= es.take(n as int)
                    + more);
            },
            Err(e) => {},
        }
    }
}

/// An entry of a dict that was written can be read.
pub proof fn lemma_entry_round_trip(
    es: Seq<(SpecParam, SpecParam)>,
    i: nat,
    k: signature::Base,
    v: SpecType,
    bo: ByteOrder,
    w: Wire,
    b: Seq<u8>,
    fds: Seq<UnixFd>,
)
    requires
        i < es.len(),
        dict_fault(es, k, v) is None,
        b.len() <= usize::MAX,
        marshal_spec(es[i as int].0, bo, w.pad(8)) matches Ok(w1) && marshal_spec(
            es[i as int].1,
            bo,
            w1,
        ) matches Ok(w2) && holds(b, w2, w.buf.len() as int) && w2.fds.is_prefix_of(fds),
    ensures
        unmarshal_entry(k, v, bo, b, w.buf.len() as int, fds) == Ok::<
            (int, (SpecParam, SpecParam)),
            UnmarshalError,
        >(
            (
                marshal_spec(
                    es[i as int].1,
                    bo,
                    marshal_spec(es[i as int].0, bo, w.pad(8))->Ok_0,
                )->Ok_0.buf.len() - w.buf.len(),
                es[i as int],
            ),
        ),
        marshal_spec(
            es[i as int].1,
            bo,
            marshal_spec(es[i as int].0, bo, w.pad(8))->Ok_0,
        )->Ok_0.buf.len() > w.buf.len(),
    decreases es, 0nat,
{
    let key = es[i as int].0;
    let val = es[i as int].1;
    let padded = w.pad(8);
    let keyed = marshal_spec(key, bo, padded)->Ok_0;
    let after = marshal_spec(val, bo, keyed)->Ok_0;
    let at = w.buf.len() as int;
    lemma_pad_put(w, 8, Seq::empty());
    lemma_marshal_extends(key, bo, padded);
    lemma_marshal_extends(val, bo, keyed);
    lemma_extends_trans(padded, keyed, after);
    lemma_holds_less(b, after, at, padded, at);
    lemma_holds_less(b, after, at, keyed, padded.buf.len() as int);
    lemma_holds_less(b, after, at, after, keyed.buf.len() as int);
    lemma_fds_prefix(keyed.fds, after.fds, fds);
    lemma_read_padding(b, w, 8);
    lemma_round_trip(key, bo, padded, b, fds);
    lemma_unmarshal_containers(bo, b, padded.buf.len() as int, fds);
    lemma_round_trip(val, bo, keyed, b, fds);
    lemma_unmarshal_entry(k, v, bo, b, at, fds);
    assert(es[i as int] == (key, val));
}

/// What can be read as a value of a basic type passes the validator,
/// with as many bytes.
pub proof fn lemma_base_reads_valid(
    k: signature::Base,
    bo: ByteOrder,
    b: Seq<u8>,
    off: int,
    fds: Seq<UnixFd>,
)
    ensures
        unmarshal_base_spec(k, bo, b, off, fds) matches Ok((n, v)) ==> validate_base_spec(
            bo,
            off,
            b,
            k,
        ) == Ok::<int, (int, UnmarshalError)>(n),
{
    reveal(unmarshal_base_spec);
    reveal(validate_base_spec);
}

/// What can be read passes the validator, with as many bytes.
pub proof fn lemma_reads_valid(t: SpecType, bo: ByteOrder, b: Seq<u8>, off: int, fds: Seq<UnixFd>)
    requires
        0 <= off <= b.len(),
    ensures
        unmarshal_spec(t, bo, b, off, fds) matches Ok((n, v)) ==> validate_spec(bo, off, b, t)
            == Ok::<int, (int, UnmarshalError)>(n),
    decreases b.len() - off, t, 0nat,
{
    lemma_unmarshal_containers(bo, b, off, fds);
    if let Ok((n, v)) = unmarshal_spec(t, bo, b, off, fds) {
        match t {
            SpecType::Base(k) => {
                lemma_base_reads_valid(k, bo, b, off, fds);
            },
            SpecType::Array(elem) => {
                lemma_array_reads_valid(*elem, bo, b, off, fds);
            },
            SpecType::Dict(k, v) => {
                lemma_dict_reads_valid(k, *v, bo, b, off, fds);
            },
            SpecType::Struct(fields) => {
                let padding = align_offset_spec(8, b, off)->Ok_0;
                lemma_fields_read_valid(fields, 0, bo, b, off + padding, fds);
            },
            SpecType::Variant => {
                lemma_unmarshal_variant(bo, b, off, fds);
                let (m, text) = unmarshal_signature_spec(rest(b, off))->Ok_0;
                let ts = signature::parse_description_spec(text)->Ok_0;
                lemma_reads_valid(ts[0], bo, b, off + m, fds);
            },
        }
    }
}

/// An array that can be read passes the validator.
pub proof fn lemma_array_reads_valid(
    elem: SpecType,
    bo: ByteOrder,
    b: Seq<u8>,
    off: int,
    fds: Seq<UnixFd>,
)
    requires
        0 <= off <= b.len(),
    ensures
        unmarshal_spec(SpecType::Array(Box::new(elem)), bo, b, off, fds) matches Ok((n, v))
            ==> validate_spec(bo, off, b, SpecType::Array(Box::new(elem))) == Ok::<
            int,
            (int, UnmarshalError),
        >(n),
    decreases b.len() - off, elem, 2nat,
{
    lemma_unmarshal_containers(bo, b, off, fds);
    if let Ok((n, v)) = unmarshal_spec(SpecType::Array(Box::new(elem)), bo, b, off, fds) {
        let (head, len) = collection_head(bo, off, b, elem.alignment())->Ok_0;
        let inner = b.subrange(0, off + head + len);
        lemma_alignment(elem);
        lemma_head_aligned(bo, off, b, elem.alignment());
        if elem.fixed_width() {
            lemma_fixed_elems(elem->Base_0, bo, inner, off + head, fds);
        } else {
            lemma_elems_read_valid(elem, bo, inner, off + head, fds);
        }
    }
}

/// A dict that can be read passes the validator.
pub proof fn lemma_dict_reads_valid(
    k: signature::Base,
    v: SpecType,
    bo: ByteOrder,
    b: Seq<u8>,
    off: int,
    fds: Seq<UnixFd>,
)
    requires
        0 <= off <= b.len(),
    ensures
        unmarshal_spec(SpecType::Dict(k, Box::new(v)), bo, b, off, fds) matches Ok((n, x))
            ==> validate_spec(bo, off, b, SpecType::Dict(k, Box::new(v))) == Ok::<
            int,
            (int, UnmarshalError),
        >(n),
    decreases b.len() - off, v, 3nat,
{
    lemma_unmarshal_dict(k, v, bo, b, off, fds);
    if let Ok((n, x)) = unmarshal_spec(SpecType::Dict(k, Box::new(v)), bo, b, off, fds) {
        let (head, len) = collection_head(bo, off, b, 8)->Ok_0;
        let inner = b.subrange(0, off + head + len);
        lemma_entries_read_valid(k, v, bo, inner, off + head, fds);
    }
}

/// The first element of an array or dict starts at a multiple of its alignment.
pub proof fn lemma_head_aligned(bo: ByteOrder, off: int, b: Seq<u8>, align: nat)
    requires
        align == 1 || align == 2 || align == 4 || align == 8,
        0 <= off,
    ensures
        collection_head(bo, off, b, align) matches Ok((head, len)) ==> (off + head) % (
        align as int) == 0 && head >= 4 && len >= 0 && off + head + len <= b.len(),
{
    reveal(collection_head);
    if let Ok((head, len)) = collection_head(bo, off, b, align) {
        let padding = align_offset_spec(4, b, off)->Ok_0;
        lemma_padding_aligned(align, (off + padding + 4) as nat);
    }
}

/// A step of the alignment from a multiple of it leads to a multiple of
/// it, and what is a whole number of steps from there is one from here.
pub proof fn lemma_whole_step(align: nat, off: int, end: int)
    requires
        align == 1 || align == 2 || align == 4 || align == 8,
        off % (align as int) == 0,
    ensures
        (off + align) % (align as int) == 0,
        (end - (off + align)) % (align as int) == 0 ==> (end - off) % (align as int) == 0,
        (off - off) % (align as int) == 0,
{
    if align == 1 {
        assert((off + 1) % 1 == 0);
    } else if align == 2 {
        assert(off % 2 == 0);
        assert((off + 2) % 2 == 0);
        assert((end - (off + 2)) % 2 == 0 ==> (end - off) % 2 == 0);
    } else if align == 4 {
        assert(off % 4 == 0);
        assert((off + 4) % 4 == 0);
        assert((end - (off + 4)) % 4 == 0 ==> (end - off) % 4 == 0);
    } else {
        assert(off % 8 == 0);
        assert((off + 8) % 8 == 0);
        assert((end - (off + 8)) % 8 == 0 ==> (end - off) % 8 == 0);
    }
}

/// A place and its padding make a multiple of the alignment.
pub proof fn lemma_padding_aligned(align: nat, at: nat)
    requires
        align == 1 || align == 2 || align == 4 || align == 8,
    ensures
        (at + padding_for(align, at)) % align == 0,
        padding_for(align, at) < align,
{
    if align == 1 {
        assert((at + padding_for(1, at)) % 1 == 0);
    } else if align == 2 {
        assert((at + padding_for(2, at)) % 2 == 0);
    } else if align == 4 {
        assert((at + padding_for(4, at)) % 4 == 0);
    } else {
        assert((at + padding_for(8, at)) % 8 == 0);
    }
}

/// Elements of a fixed width that can be read fill a whole number of
/// times their width.
pub proof fn lemma_fixed_elems(
    e: signature::Base,
    bo: ByteOrder,
    b: Seq<u8>,
    off: int,
    fds: Seq<UnixFd>,
)
    requires
        e.fixed_width(),
        0 <= off <= b.len(),
        off % (e.alignment() as int) == 0,
    ensures
        unmarshal_elems(SpecType::Base(e), bo, b, off, fds) is Ok ==> (b.len() - off) % (
        e.alignment() as int) == 0,
    decreases b.len() - off,
{
    lemma_unmarshal_elems_step(SpecType::Base(e), bo, b, off, fds);
    lemma_unmarshal_containers(bo, b, off, fds);
    if unmarshal_elems(SpecType::Base(e), bo, b, off, fds) is Ok && off < b.len() {
        let (n, v) = unmarshal_base_spec(e, bo, b, off, fds)->Ok_0;
        assert(n == e.alignment() && off + n <= b.len()) by {
            reveal(unmarshal_base_spec);
        }
        lemma_alignment(SpecType::Base(e));
        lemma_whole_step(e.alignment(), off, b.len() as int);
        lemma_fixed_elems(e, bo, b, off + n, fds);
    } else if unmarshal_elems(SpecType::Base(e), bo, b, off, fds) is Ok {
        lemma_alignment(SpecType::Base(e));
        lemma_whole_step(e.alignment(), off, b.len() as int);
    }
}

/// Elements that can be read pass the validator.
pub proof fn lemma_elems_read_valid(
    elem: SpecType,
    bo: ByteOrder,
    b: Seq<u8>,
    off: int,
    fds: Seq<UnixFd>,
)
    requires
        0 <= off <= b.len(),
    ensures
        unmarshal_elems(elem, bo, b, off, fds) is Ok ==> validate_elems(bo, off, b, elem) == Ok::<
            (),
            (int, UnmarshalError),
        >(()),
    decreases b.len() - off, elem, 1nat,
{
    lemma_unmarshal_elems_step(elem, bo, b, off, fds);
    lemma_validate_steps(bo, off, b);
    if unmarshal_elems(elem, bo, b, off, fds) is Ok && off < b.len() {
        lemma_reads_valid(elem, bo, b, off, fds);
        let (n, v) = unmarshal_spec(elem, bo, b, off, fds)->Ok_0;
        if !(n < 1 || off + n > b.len()) {
            lemma_elems_read_valid(elem, bo, b, off + n, fds);
        }
    }
}

/// Entries that can be read pass the validator.
pub proof fn lemma_entries_read_valid(
    k: signature::Base,
    v: SpecType,
    bo: ByteOrder,
    b: Seq<u8>,
    off: int,
    fds: Seq<UnixFd>,
)
    requires
        0 <= off <= b.len(),
    ensures
        unmarshal_entries(k, v, bo, b, off, fds) is Ok ==> validate_entries(bo, off, b, k, v)
            == Ok::<(), (int, UnmarshalError)>(()),
    decreases b.len() - off, v, 2nat,
{
    lemma_unmarshal_entries_step(k, v, bo, b, off, fds);
    lemma_unmarshal_entry(k, v, bo, b, off, fds);
    lemma_validate_steps(bo, off, b);
    if unmarshal_entries(k, v, bo, b, off, fds) is Ok && off < b.len() {
        let padding = align_offset_spec(8, b, off)->Ok_0;
        lemma_base_reads_valid(k, bo, b, off + padding, fds);
        let (kn, key) = unmarshal_base_spec(k, bo, b, off + padding, fds)->Ok_0;
        if !(kn < 1 || off + padding + kn > b.len()) {
            lemma_reads_valid(v, bo, b, off + padding + kn, fds);
            let (vn, val) = unmarshal_spec(v, bo, b, off + padding + kn, fds)->Ok_0;
            if !(vn < 0 || off + padding + kn + vn > b.len()) {
                if padding + kn + vn >= 1 {
                    lemma_entries_read_valid(k, v, bo, b, off + padding + kn + vn, fds);
                }
            }
        }
    }
}

/// Members that can be read pass the validator, with as many bytes.
pub proof fn lemma_fields_read_valid(
    fields: Seq<SpecType>,
    i: int,
    bo: ByteOrder,
    b: Seq<u8>,
    off: int,
    fds: Seq<UnixFd>,
)
    requires
        0 <= off <= b.len(),
    ensures
        unmarshal_fields(fields, i, bo, b, off, fds) matches Ok((n, vs)) ==> validate_fields(
            bo,
            off,
            b,
            fields,
            i,
        ) == Ok::<int, (int, UnmarshalError)>(n),
    decreases b.len() - off, fields, fields.len() - i,
{
    lemma_unmarshal_fields_step(fields, i, bo, b, off, fds);
    lemma_validate_steps(bo, off, b);
    if unmarshal_fields(fields, i, bo, b, off, fds) is Ok && 0 <= i < fields.len() {
        lemma_reads_valid(fields[i], bo, b, off, fds);
        let (n, v) = unmarshal_spec(fields[i], bo, b, off, fds)->Ok_0;
        if !(n < 0 || off + n > b.len()) {
            lemma_fields_read_valid(fields, i + 1, bo, b, off + n, fds);
        }
    }
}

/// Marshalling and unmarshalling are inverse: a value that was written
/// behind `w` is read back, from where it was written, as the value that
/// it was, with as many bytes used as were written.
pub proof fn lemma_marshal_unmarshal(p: SpecParam, bo: ByteOrder, w: Wire)
    requires
        marshal_spec(p, bo, w) matches Ok(w1) && w1.buf.len() <= usize::MAX,
    ensures
        ({
            let w1 = marshal_spec(p, bo, w)->Ok_0;
            unmarshal_spec(p.ty(), bo, w1.buf, w.buf.len() as int, w1.fds) == Ok::<
                (int, SpecParam),
                UnmarshalError,
            >((w1.buf.len() - w.buf.len(), p))
        }),
{
    let w1 = marshal_spec(p, bo, w)->Ok_0;
    lemma_round_trip(p, bo, w, w1.buf, w1.fds);
}

/// What was written passes the validator: a value that was written behind
/// `w` is, from where it was written, a valid value of its type that
/// takes as many bytes as were written.
pub proof fn lemma_marshal_validates(p: SpecParam, bo: ByteOrder, w: Wire)
    requires
        marshal_spec(p, bo, w) matches Ok(w1) && w1.buf.len() <= usize::MAX,
    ensures
        ({
            let w1 = marshal_spec(p, bo, w)->Ok_0;
            validate_spec(bo, w.buf.len() as int, w1.buf, p.ty()) == Ok::<
                int,
                (int, UnmarshalError),
            >(w1.buf.len() - w.buf.len())
        }),
{
    let w1 = marshal_spec(p, bo, w)->Ok_0;
    lemma_marshal_extends(p, bo, w);
    lemma_round_trip(p, bo, w, w1.buf, w1.fds);
    lemma_reads_valid(p.ty(), bo, w1.buf, w.buf.len() as int, w1.fds);
}

/// Whether the first `n` types of a run are made of basic types and
/// structs alone.
pub open spec fn flat_run(ts: Seq<SpecType>, n: nat) -> bool
    decreases ts, n,
{
    n == 0 || n > ts.len() || (flat_run(ts, (n - 1) as nat) && is_flat(ts[n - 1]))
}

/// Whether a type is made of basic types and structs alone.
pub open spec fn is_flat(t: SpecType) -> bool
    decreases t, 0nat,
{
    match t {
        SpecType::Base(_) => true,
        SpecType::Struct(ts) => flat_run(ts, ts.len()),
        _ => false,
    }
}

/// The number of `h` in the signature of the first `n` types of a run.
pub open spec fn h_tokens_of(ts: Seq<SpecType>, n: nat) -> nat
    decreases ts, n,
{
    if n == 0 || n > ts.len() {
        0
    } else {
        h_tokens_of(ts, (n - 1) as nat) + h_tokens(ts[n - 1])
    }
}

/// The number of `h` in the signature of a type, counted along the type.
pub open spec fn h_tokens(t: SpecType) -> nat
    decreases t, 0nat,
{
    match t {
        SpecType::Base(b) => if b == signature::Base::UnixFd {
            1
        } else {
            0
        },
        SpecType::Array(e) => h_tokens(*e),
        SpecType::Dict(k, v) => if k == signature::Base::UnixFd {
            1 + h_tokens(*v)
        } else {
            h_tokens(*v)
        },
        SpecType::Struct(ts) => h_tokens_of(ts, ts.len()),
        SpecType::Variant => 0,
    }
}

/// A value of basic types and structs brings as many file descriptors as
/// its signature holds `h`.
pub proof fn lemma_fds_of_flat(p: SpecParam, bo: ByteOrder, w: Wire)
    requires
        is_flat(p.ty()),
    ensures
        marshal_spec(p, bo, w) matches Ok(w1) ==> w1.fds.len() == w.fds.len() + h_tokens(p.ty()),
    decreases p, 0nat,
{
    lemma_marshal_containers(bo, w);
    match p {
        SpecParam::Struct(fs) => {
            lemma_params_types(fs);
            lemma_fds_of_flat_seq(fs, fs.len(), bo, w.pad(8));
        },
        _ => {
            lemma_marshal_is_base(p, bo, w);
            reveal(marshal_base_spec);
        },
    }
}

/// Values of basic types and structs bring as many file descriptors as
/// their signatures hold `h`.
pub proof fn lemma_fds_of_flat_seq(fs: Seq<SpecParam>, n: nat, bo: ByteOrder, w: Wire)
    requires
        n <= fs.len(),
        flat_run(params_types(fs), n),
    ensures
        marshal_seq(fs, n, bo, w) matches Ok(w1) ==> w1.fds.len() == w.fds.len() + h_tokens_of(
            params_types(fs),
            n,
        ),
    decreases fs, n,
{
    lemma_marshal_none(bo, w);
    lemma_params_types(fs);
    if n > 0 {
        lemma_marshal_seq_step(fs, (n - 1) as nat, bo, w);
        lemma_fds_of_flat_seq(fs, (n - 1) as nat, bo, w);
        if let Ok(w1) = marshal_seq(fs, (n - 1) as nat, bo, w) {
            lemma_fds_of_flat(fs[n - 1], bo, w1);
        }
    }
}

/// How often `h` occurs in a text.
pub open spec fn count_h(s: Seq<char>) -> nat
    decreases s.len(),
{
    if s.len() == 0 {
        0
    } else if s.last() == 'h' {
        1 + count_h(s.drop_last())
    } else {
        count_h(s.drop_last())
    }
}

/// Texts that stand one behind the other hold as many `h` as both together.
pub proof fn lemma_count_h_concat(a: Seq<char>, b: Seq<char>)
    ensures
        count_h(a + b) == count_h(a) + count_h(b),
    decreases b.len(),
{
    if b.len() == 0 {
        assert(a + b =~= a);
    } else {
        assert((a + b).drop_last() =~= a + b.drop_last());
        lemma_count_h_concat(a, b.drop_last());
    }
}

/// A text of one character holds an `h` if that character is one.
pub proof fn lemma_count_h_one(c: char)
    ensures
        count_h(seq![c]) == if c == 'h' {
            1nat
        } else {
            0nat
        },
{
    let s = seq![c];
    assert(s.drop_last() =~= Seq::<char>::empty());
    assert(count_h(s.drop_last()) == 0);
    assert(s.last() == c);
}

/// The `h` tokens of a type are the `h` in its signature.
pub proof fn lemma_h_tokens_in_text(t: SpecType)
    ensures
        h_tokens(t) == count_h(t.text()),
    decreases t, 0nat,
{
    match t {
        SpecType::Base(b) => {
            lemma_count_h_one(b.code());
        },
        SpecType::Variant => {
            lemma_count_h_one('v');
        },
        SpecType::Array(e) => {
            lemma_h_tokens_in_text(*e);
            lemma_count_h_one('a');
            lemma_count_h_concat(seq!['a'], e.text());
        },
        SpecType::Dict(k, v) => {
            lemma_h_tokens_in_text(*v);
            lemma_count_h_one('a');
            lemma_count_h_one('{');
            lemma_count_h_one('}');
            lemma_count_h_one(k.code());
            assert(seq!['a', '{', k.code()] =~= seq!['a'] + seq!['{'] + seq![k.code()]);
            lemma_count_h_concat(seq!['a'], seq!['{']);
            lemma_count_h_concat(seq!['a'] + seq!['{'], seq![k.code()]);
            lemma_count_h_concat(seq!['a', '{', k.code()], v.text());
            lemma_count_h_concat(seq!['a', '{', k.code()] + v.text(), seq!['}']);
        },
        SpecType::Struct(ts) => {
            lemma_h_tokens_in_texts(ts, ts.len());
            assert(ts.take(ts.len() as int) =~= ts);
            lemma_count_h_one('(');
            lemma_count_h_one(')');
            lemma_count_h_concat(seq!['('], signature::types_text(ts));
            lemma_count_h_concat(seq!['('] + signature::types_text(ts), seq![')']);
        },
    }
}

/// The `h` tokens of the first types of a run are the `h` in their signature.
pub proof fn lemma_h_tokens_in_texts(ts: Seq<SpecType>, n: nat)
    requires
        n <= ts.len(),
    ensures
        h_tokens_of(ts, n) == count_h(signature::types_text(ts.take(n as int))),
    decreases ts, n,
{
    if n == 0 {
        assert(ts.take(0) =~= Seq::<SpecType>::empty());
    } else {
        lemma_h_tokens_in_texts(ts, (n - 1) as nat);
        lemma_h_tokens_in_text(ts[n - 1]);
        assert(ts.take(n as int).drop_last() =~= ts.take(n - 1));
        lemma_count_h_concat(signature::types_text(ts.take(n - 1)), ts[n - 1].text());
    }
}

/// A value of basic types and structs that is written brings exactly as
/// many file descriptors as there are `h` in its signature.
pub proof fn lemma_fds_match_signature(p: SpecParam, bo: ByteOrder, w: Wire)
    requires
        is_flat(p.ty()),
        marshal_spec(p, bo, w) is Ok,
    ensures
        marshal_spec(p, bo, w)->Ok_0.fds.len() == w.fds.len() + count_h(p.ty().text()),
{
    lemma_fds_of_flat(p, bo, w);
    lemma_h_tokens_in_text(p.ty());
}

} // verus!
