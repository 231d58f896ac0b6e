//! What is valid stays valid when more is written behind it.
use crate::signature;
use crate::signature::parse_description_spec;
use crate::signature::SpecType;
use crate::wire::errors::UnmarshalError;
use crate::wire::util;
use crate::wire::util::align_offset_spec;
use crate::wire::util::text_after;
use crate::wire::util::unmarshal_signature_spec;
use crate::wire::util::unmarshal_str_spec;
use crate::wire::validate_raw::collection_head;
use crate::wire::validate_raw::lemma_validate_steps;
use crate::wire::validate_raw::rest;
use crate::wire::validate_raw::validate_base_spec;
use crate::wire::validate_raw::validate_fields;
use crate::wire::validate_raw::validate_spec;
use crate::ByteOrder;
use vstd::prelude::*;

verus! {

/// Numbers are read from the first bytes alone.
pub proof fn lemma_ints_of_prefix(bo: ByteOrder, x: Seq<u8>, y: Seq<u8>)
    requires
        x.is_prefix_of(y),
    ensures
        x.len() >= 2 ==> util::u16_of(bo, x) == util::u16_of(bo, y),
        x.len() >= 4 ==> util::u32_of(bo, x) == util::u32_of(bo, y),
        x.len() >= 8 ==> util::u64_of(bo, x) == util::u64_of(bo, y),
{
    reveal(util::u16_of);
    reveal(util::u32_of);
    reveal(util::u64_of);
    assert forall|i: int| 0 <= i < x.len() implies x[i] == y[i] by {
        assert(x[i] == y.subrange(0, x.len() as int)[i]);
    }
}

/// What stands behind a text does not change what the text is.
pub proof fn lemma_text_of_prefix(x: Seq<u8>, y: Seq<u8>, head: int, len: int)
    requires
        x.is_prefix_of(y),
        0 <= head,
        0 <= len,
    ensures
        text_after(x, head, len) is Ok ==> text_after(y, head, len) == text_after(x, head, len),
{
    if text_after(x, head, len) is Ok {
        assert forall|i: int| 0 <= i < x.len() implies x[i] == y[i] by {
            assert(x[i] == y.subrange(0, x.len() as int)[i]);
        }
        assert(x.subrange(head, head + len) =~= y.subrange(head, head + len));
    }
}

/// Padding that is there stays there when more is written behind it.
pub proof fn lemma_align_of_prefix(align: nat, b1: Seq<u8>, b2: Seq<u8>, off: int)
    requires
        align == 1 || align == 2 || align == 4 || align == 8,
        b1.is_prefix_of(b2),
        0 <= off <= b1.len(),
    ensures
        align_offset_spec(align, b1, off) matches Ok(p) ==> align_offset_spec(align, b2, off)
            == Ok::<usize, UnmarshalError>(p) && off + p <= b1.len() && p == util::padding_for(
            align,
            off as nat,
        ),
{
    crate::wire::round_trip::lemma_padding_aligned(align, off as nat);
    if let Ok(p) = align_offset_spec(align, b1, off) {
        let padding = util::padding_for(align, off as nat);
        assert forall|i: int| off <= i < off + padding implies b2[i] == 0 by {
            assert(b1[i] == b2.subrange(0, b1.len() as int)[i]);
        }
    }
}

/// The rest of a beginning is the beginning of the rest.
pub proof fn lemma_rest_of_prefix(b1: Seq<u8>, b2: Seq<u8>, off: int)
    requires
        b1.is_prefix_of(b2),
        0 <= off <= b1.len(),
    ensures
        rest(b1, off).is_prefix_of(rest(b2, off)),
        rest(b1, off).len() == b1.len() - off,
{
    assert forall|i: int| 0 <= i < b1.len() - off implies rest(b1, off)[i] == rest(b2, off)[i] by {
        assert(b1[off + i] == b2.subrange(0, b1.len() as int)[off + i]);
    }
    assert(rest(b1, off) =~= rest(b2, off).subrange(0, rest(b1, off).len() as int));
}

/// A value of a basic type that is valid lies within the bytes, and
/// stays valid when more is written behind them.
pub proof fn lemma_base_stays_valid(
    k: signature::Base,
    bo: ByteOrder,
    b1: Seq<u8>,
    b2: Seq<u8>,
    off: int,
)
    requires
        b1.is_prefix_of(b2),
        0 <= off <= b1.len(),
        b2.len() <= usize::MAX,
    ensures
        validate_base_spec(bo, off, b1, k) matches Ok(n) ==> 1 <= n && off + n <= b1.len()
            && validate_base_spec(bo, off, b2, k) == Ok::<int, (int, UnmarshalError)>(n),
{
    reveal(validate_base_spec);
    crate::wire::round_trip::lemma_alignment(SpecType::Base(k));
    lemma_align_of_prefix(k.alignment(), b1, b2, off);
    if let Ok(n) = validate_base_spec(bo, off, b1, k) {
        let padding = align_offset_spec(k.alignment(), b1, off)->Ok_0;
        let start = off + padding;
        let x = rest(b1, start);
        let y = rest(b2, start);
        lemma_rest_of_prefix(b1, b2, start);
        lemma_ints_of_prefix(bo, x, y);
        match k {
            signature::Base::String | signature::Base::ObjectPath => {
                lemma_text_of_prefix(x, y, 4, util::u32_of(bo, x) as int);
            },
            signature::Base::Signature => {
                assert(x[0] == y.subrange(0, x.len() as int)[0]);
                lemma_text_of_prefix(x, y, 1, x[0] as int);
            },
            _ => {},
        }
    }
}

/// The head of an array or dict that is valid stays as it is when more
/// is written behind the bytes, and its elements lie within the bytes.
pub proof fn lemma_head_stays(bo: ByteOrder, off: int, b1: Seq<u8>, b2: Seq<u8>, align: nat)
    requires
        align == 1 || align == 2 || align == 4 || align == 8,
        b1.is_prefix_of(b2),
        0 <= off <= b1.len(),
    ensures
        collection_head(bo, off, b1, align) matches Ok((head, len)) ==> collection_head(
            bo,
            off,
            b2,
            align,
        ) == Ok::<(int, int), (int, UnmarshalError)>((head, len)) && head >= 4 && len >= 0 && off
            + head + len <= b1.len(),
{
    reveal(collection_head);
    lemma_align_of_prefix(4, b1, b2, off);
    if let Ok((head, len)) = collection_head(bo, off, b1, align) {
        let padding = align_offset_spec(4, b1, off)->Ok_0;
        let at_len = off + padding;
        lemma_rest_of_prefix(b1, b2, at_len);
        lemma_ints_of_prefix(bo, rest(b1, at_len), rest(b2, at_len));
        lemma_align_of_prefix(align, b1, b2, at_len + 4);
    }
}

/// A value that is valid lies within the bytes, and stays valid when
/// more is written behind them.
pub proof fn lemma_stays_valid(t: SpecType, bo: ByteOrder, b1: Seq<u8>, b2: Seq<u8>, off: int)
    requires
        b1.is_prefix_of(b2),
        0 <= off <= b1.len(),
        b2.len() <= usize::MAX,
    ensures
        validate_spec(bo, off, b1, t) matches Ok(n) ==> 0 <= n && off + n <= b1.len()
            && validate_spec(bo, off, b2, t) == Ok::<int, (int, UnmarshalError)>(n),
    decreases b1.len() - off, t, 0nat,
{
    if let Ok(n) = validate_spec(bo, off, b1, t) {
        match t {
            SpecType::Base(k) => {
                lemma_base_stays_valid(k, bo, b1, b2, off);
            },
            SpecType::Array(elem) => {
                crate::wire::round_trip::lemma_alignment(*elem);
                lemma_head_stays(bo, off, b1, b2, elem.alignment());
                let (head, len) = collection_head(bo, off, b1, elem.alignment())->Ok_0;
                assert(b1.subrange(0, off + head + len) =~= b2.subrange(0, off + head + len));
            },
            SpecType::Dict(k, v) => {
                lemma_head_stays(bo, off, b1, b2, 8);
                let (head, len) = collection_head(bo, off, b1, 8)->Ok_0;
                assert(b1.subrange(0, off + head + len) =~= b2.subrange(0, off + head + len));
            },
            SpecType::Struct(fields) => {
                lemma_align_of_prefix(8, b1, b2, off);
                let padding = align_offset_spec(8, b1, off)->Ok_0;
                lemma_fields_stay_valid(fields, 0, bo, b1, b2, off + padding);
            },
            SpecType::Variant => {
                lemma_rest_of_prefix(b1, b2, off);
                let x = rest(b1, off);
                let y = rest(b2, off);
                assert(x[0] == y.subrange(0, x.len() as int)[0]);
                lemma_text_of_prefix(x, y, 1, x[0] as int);
                let (m, text) = unmarshal_signature_spec(x)->Ok_0;
                let ts = parse_description_spec(text)->Ok_0;
                lemma_stays_valid(ts[0], bo, b1, b2, off + m);
            },
        }
    }
}

/// Members that are valid lie within the bytes, and stay valid when more
/// is written behind them.
pub proof fn lemma_fields_stay_valid(
    fields: Seq<SpecType>,
    i: int,
    bo: ByteOrder,
    b1: Seq<u8>,
    b2: Seq<u8>,
    off: int,
)
    requires
        b1.is_prefix_of(b2),
        0 <= off <= b1.len(),
        b2.len() <= usize::MAX,
    ensures
        validate_fields(bo, off, b1, fields, i) matches Ok(n) ==> 0 <= n && off + n <= b1.len()
            && validate_fields(bo, off, b2, fields, i) == Ok::<int, (int, UnmarshalError)>(n),
    decreases b1.len() - off, fields, fields.len() - i,
{
    lemma_validate_steps(bo, off, b1);
    lemma_validate_steps(bo, off, b2);
    if validate_fields(bo, off, b1, fields, i) is Ok && 0 <= i < fields.len() {
        lemma_stays_valid(fields[i], bo, b1, b2, off);
        let n = validate_spec(bo, off, b1, fields[i])->Ok_0;
        lemma_fields_stay_valid(fields, i + 1, bo, b1, b2, off + n);
    }
}

/// Valid values with one more valid value behind them are valid values:
/// where the values of the types `ts` from type `i` on fill `b1` from
/// `off` to its end, and `b2` holds behind `b1` a valid value of type `t`,
/// the values of `ts` and `t` from type `i` on are valid in `b2`.
pub proof fn lemma_fields_with_one_more(
    ts: Seq<SpecType>,
    i: int,
    t: SpecType,
    bo: ByteOrder,
    b1: Seq<u8>,
    b2: Seq<u8>,
    off: int,
)
    requires
        b1.is_prefix_of(b2),
        0 <= off <= b1.len(),
        0 <= i <= ts.len(),
        b2.len() <= usize::MAX,
        validate_fields(bo, off, b1, ts, i) == Ok::<int, (int, UnmarshalError)>(b1.len() - off),
        validate_spec(bo, b1.len() as int, b2, t) == Ok::<int, (int, UnmarshalError)>(
            b2.len() - b1.len(),
        ),
    ensures
        validate_fields(bo, off, b2, ts.push(t), i) == Ok::<int, (int, UnmarshalError)>(
            b2.len() - off,
        ),
    decreases ts.len() - i,
{
    let all = ts.push(t);
    lemma_validate_steps(bo, off, b1);
    lemma_validate_steps(bo, off, b2);
    if i == ts.len() {
        lemma_validate_steps(bo, b2.len() as int, b2);
        assert(all[i] == t);
    } else {
        assert(all[i] == ts[i]);
        lemma_stays_valid(ts[i], bo, b1, b2, off);
        let n = validate_spec(bo, off, b1, ts[i])->Ok_0;
        lemma_fields_stay_valid(ts, i + 1, bo, b1, b1, off + n);
        lemma_fields_with_one_more(ts, i + 1, t, bo, b1, b2, off + n);
    }
}

} // verus!
