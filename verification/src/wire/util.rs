//! Integers in either byte order, strings, signatures and alignment padding.
use crate::wire::errors::MarshalError;
use crate::wire::errors::UnmarshalError;
use crate::ByteOrder;
use vstd::prelude::*;
use vstd::slice::slice_subrange;
use vstd::string::StringSliceAdditionalSpecFns;
use vstd::utf8::decode_utf8;
use vstd::utf8::encode_utf8;
use vstd::utf8::valid_utf8;

verus! {

/// The result of reading a value: the bytes used and the value.
pub type UnmarshalResult<T> = Result<(usize, T), UnmarshalError>;

/// `n` zero bytes.
pub open spec fn zeros(n: nat) -> Seq<u8> {
    Seq::new(n, |i: int| 0u8)
}

/// The number of bytes from `offset` to the next multiple of `align`.
pub open spec fn padding_for(align: nat, offset: nat) -> nat {
    if align == 0 || offset % align == 0 {
        0
    } else {
        (align - offset % align) as nat
    }
}

/// Byte number `i` of `v`, counted from the least significant.
pub open spec fn byte_of(v: nat, i: nat) -> u8 {
    if i == 0 {
        (v % 256) as u8
    } else if i == 1 {
        (v / 0x100 % 256) as u8
    } else if i == 2 {
        (v / 0x1_0000 % 256) as u8
    } else if i == 3 {
        (v / 0x100_0000 % 256) as u8
    } else if i == 4 {
        (v / 0x1_0000_0000 % 256) as u8
    } else if i == 5 {
        (v / 0x100_0000_0000 % 256) as u8
    } else if i == 6 {
        (v / 0x1_0000_0000_0000 % 256) as u8
    } else {
        (v / 0x100_0000_0000_0000 % 256) as u8
    }
}

/// The two bytes of `v`.
#[verifier::opaque]
pub open spec fn u16_bytes(bo: ByteOrder, v: u16) -> Seq<u8> {
    let n = v as nat;
    match bo {
        ByteOrder::LittleEndian => seq![byte_of(n, 0), byte_of(n, 1)],
        ByteOrder::BigEndian => seq![byte_of(n, 1), byte_of(n, 0)],
    }
}

/// The four bytes of `v`.
#[verifier::opaque]
pub open spec fn u32_bytes(bo: ByteOrder, v: u32) -> Seq<u8> {
    let n = v as nat;
    match bo {
        ByteOrder::LittleEndian => seq![byte_of(n, 0), byte_of(n, 1), byte_of(n, 2), byte_of(n, 3)],
        ByteOrder::BigEndian => seq![byte_of(n, 3), byte_of(n, 2), byte_of(n, 1), byte_of(n, 0)],
    }
}

/// The eight bytes of `v`.
#[verifier::opaque]
pub open spec fn u64_bytes(bo: ByteOrder, v: u64) -> Seq<u8> {
    let n = v as nat;
    match bo {
        ByteOrder::LittleEndian => seq![
            byte_of(n, 0),
            byte_of(n, 1),
            byte_of(n, 2),
            byte_of(n, 3),
            byte_of(n, 4),
            byte_of(n, 5),
            byte_of(n, 6),
            byte_of(n, 7),
        ],
        ByteOrder::BigEndian => seq![
            byte_of(n, 7),
            byte_of(n, 6),
            byte_of(n, 5),
            byte_of(n, 4),
            byte_of(n, 3),
            byte_of(n, 2),
            byte_of(n, 1),
            byte_of(n, 0),
        ],
    }
}

/// The number whose bytes are, from the least significant, `b0` to `b3`.
pub open spec fn join4(b0: u8, b1: u8, b2: u8, b3: u8) -> nat {
    (b0 + b1 * 0x100 + b2 * 0x1_0000 + b3 * 0x100_0000) as nat
}

/// The number that the first two bytes of `b` hold.
#[verifier::opaque]
pub open spec fn u16_of(bo: ByteOrder, b: Seq<u8>) -> u16 {
    match bo {
        ByteOrder::LittleEndian => join4(b[0], b[1], 0, 0) as u16,
        ByteOrder::BigEndian => join4(b[1], b[0], 0, 0) as u16,
    }
}

/// The number that the first four bytes of `b` hold.
#[verifier::opaque]
pub open spec fn u32_of(bo: ByteOrder, b: Seq<u8>) -> u32 {
    match bo {
        ByteOrder::LittleEndian => join4(b[0], b[1], b[2], b[3]) as u32,
        ByteOrder::BigEndian => join4(b[3], b[2], b[1], b[0]) as u32,
    }
}

/// The number that the first eight bytes of `b` hold.
#[verifier::opaque]
pub open spec fn u64_of(bo: ByteOrder, b: Seq<u8>) -> u64 {
    match bo {
        ByteOrder::LittleEndian => (join4(b[0], b[1], b[2], b[3]) + join4(b[4], b[5], b[6], b[7])
            * 0x1_0000_0000) as u64,
        ByteOrder::BigEndian => (join4(b[7], b[6], b[5], b[4]) + join4(b[3], b[2], b[1], b[0])
            * 0x1_0000_0000) as u64,
    }
}

/// Joining the four low bytes of a number gives its low 32 bits.
pub proof fn lemma_join_bytes(n: nat)
    ensures
        join4(byte_of(n, 0), byte_of(n, 1), byte_of(n, 2), byte_of(n, 3)) == n % 0x1_0000_0000,
        join4(byte_of(n, 4), byte_of(n, 5), byte_of(n, 6), byte_of(n, 7)) == n / 0x1_0000_0000
            % 0x1_0000_0000,
{
    let q1 = n / 256;
    let q2 = q1 / 256;
    let q3 = q2 / 256;
    let q4 = q3 / 256;
    let q5 = q4 / 256;
    let q6 = q5 / 256;
    let q7 = q6 / 256;
    let q8 = q7 / 256;
    assert(n / 0x100 == q1);
    assert(n / 0x1_0000 == q2);
    assert(n / 0x100_0000 == q3);
    assert(n / 0x1_0000_0000 == q4);
    assert(n / 0x100_0000_0000 == q5);
    assert(n / 0x1_0000_0000_0000 == q6);
    assert(n / 0x100_0000_0000_0000 == q7);
    assert(n % 0x1_0000_0000 == n % 256 + q1 % 256 * 0x100 + q2 % 256 * 0x1_0000 + q3 % 256
        * 0x100_0000);
    assert(q4 % 0x1_0000_0000 == q4 % 256 + q5 % 256 * 0x100 + q6 % 256 * 0x1_0000 + q7 % 256
        * 0x100_0000);
}

/// A number has as many bytes as its width says.
pub proof fn lemma_bytes_len(bo: ByteOrder)
    ensures
        forall|v: u16| (#[trigger] u16_bytes(bo, v)).len() == 2,
        forall|v: u32| (#[trigger] u32_bytes(bo, v)).len() == 4,
        forall|v: u64| (#[trigger] u64_bytes(bo, v)).len() == 8,
{
    reveal(u16_bytes);
    reveal(u32_bytes);
    reveal(u64_bytes);
}

/// Reading a 16-bit number that was written gives it back.
pub proof fn lemma_u16_round_trip(bo: ByteOrder, v: u16)
    ensures
        u16_bytes(bo, v).len() == 2,
        u16_of(bo, u16_bytes(bo, v)) == v,
{
    reveal(u16_bytes);
    reveal(u16_of);
}

/// Reading a 32-bit number that was written gives it back.
pub proof fn lemma_u32_round_trip(bo: ByteOrder, v: u32)
    ensures
        u32_bytes(bo, v).len() == 4,
        u32_of(bo, u32_bytes(bo, v)) == v,
{
    reveal(u32_bytes);
    reveal(u32_of);
    lemma_join_bytes(v as nat);
}

/// Reading a 64-bit number that was written gives it back.
pub proof fn lemma_u64_round_trip(bo: ByteOrder, v: u64)
    ensures
        u64_bytes(bo, v).len() == 8,
        u64_of(bo, u64_bytes(bo, v)) == v,
{
    reveal(u64_bytes);
    reveal(u64_of);
    lemma_join_bytes(v as nat);
}

/// The unsigned number with the bits of `v`, in two's complement.
pub open spec fn i16_bits(v: i16) -> u16 {
    if v >= 0 {
        v as u16
    } else {
        (v + 0x1_0000) as u16
    }
}

/// The unsigned number with the bits of `v`, in two's complement.
pub open spec fn i32_bits(v: i32) -> u32 {
    if v >= 0 {
        v as u32
    } else {
        (v + 0x1_0000_0000) as u32
    }
}

/// The unsigned number with the bits of `v`, in two's complement.
pub open spec fn i64_bits(v: i64) -> u64 {
    if v >= 0 {
        v as u64
    } else {
        (v + 0x1_0000_0000_0000_0000) as u64
    }
}

/// The signed number with the bits of `v`, in two's complement.
pub open spec fn i16_of_bits(v: u16) -> i16 {
    if v < 0x8000 {
        v as i16
    } else {
        (v - 0x1_0000) as i16
    }
}

/// The signed number with the bits of `v`, in two's complement.
pub open spec fn i32_of_bits(v: u32) -> i32 {
    if v < 0x8000_0000 {
        v as i32
    } else {
        (v - 0x1_0000_0000) as i32
    }
}

/// The signed number with the bits of `v`, in two's complement.
pub open spec fn i64_of_bits(v: u64) -> i64 {
    if v < 0x8000_0000_0000_0000 {
        v as i64
    } else {
        (v - 0x1_0000_0000_0000_0000) as i64
    }
}

pub fn i16_to_bits(v: i16) -> (r: u16)
    ensures
        r == i16_bits(v),
        i16_of_bits(r) == v,
{
    if v >= 0 {
        v as u16
    } else {
        (v as i32 + 0x1_0000) as u16
    }
}

pub fn i32_to_bits(v: i32) -> (r: u32)
    ensures
        r == i32_bits(v),
        i32_of_bits(r) == v,
{
    if v >= 0 {
        v as u32
    } else {
        (v as i64 + 0x1_0000_0000) as u32
    }
}

pub fn i64_to_bits(v: i64) -> (r: u64)
    ensures
        r == i64_bits(v),
        i64_of_bits(r) == v,
{
    if v >= 0 {
        v as u64
    } else {
        (v as i128 + 0x1_0000_0000_0000_0000) as u64
    }
}

pub fn i16_from_bits(v: u16) -> (r: i16)
    ensures
        r == i16_of_bits(v),
        i16_bits(r) == v,
{
    if v < 0x8000 {
        v as i16
    } else {
        (v as i32 - 0x1_0000) as i16
    }
}

pub fn i32_from_bits(v: u32) -> (r: i32)
    ensures
        r == i32_of_bits(v),
        i32_bits(r) == v,
{
    if v < 0x8000_0000 {
        v as i32
    } else {
        (v as i64 - 0x1_0000_0000) as i32
    }
}

pub fn i64_from_bits(v: u64) -> (r: i64)
    ensures
        r == i64_of_bits(v),
        i64_bits(r) == v,
{
    if v < 0x8000_0000_0000_0000 {
        v as i64
    } else {
        (v as i128 - 0x1_0000_0000_0000_0000) as i64
    }
}

/// Appends the two bytes of `val`.
pub fn write_u16(val: u16, byteorder: ByteOrder, buf: &mut Vec<u8>)
    ensures
        final(buf)@ == old(buf)@ + u16_bytes(byteorder, val),
{
    reveal(u16_bytes);
    reveal(u16_of);
    let b0 = (val % 256) as u8;
    let b1 = (val / 0x100 % 256) as u8;
    match byteorder {
        ByteOrder::LittleEndian => {
            buf.push(b0);
            buf.push(b1);
        },
        ByteOrder::BigEndian => {
            buf.push(b1);
            buf.push(b0);
        },
    }
    assert(buf@ =~= old(buf)@ + u16_bytes(byteorder, val));
}

/// Appends the four bytes of `val`.
pub fn write_u32(val: u32, byteorder: ByteOrder, buf: &mut Vec<u8>)
    ensures
        final(buf)@ == old(buf)@ + u32_bytes(byteorder, val),
{
    reveal(u32_bytes);
    reveal(u32_of);
    let b0 = (val % 256) as u8;
    let b1 = (val / 0x100 % 256) as u8;
    let b2 = (val / 0x1_0000 % 256) as u8;
    let b3 = (val / 0x100_0000 % 256) as u8;
    match byteorder {
        ByteOrder::LittleEndian => {
            buf.push(b0);
            buf.push(b1);
            buf.push(b2);
            buf.push(b3);
        },
        ByteOrder::BigEndian => {
            buf.push(b3);
            buf.push(b2);
            buf.push(b1);
            buf.push(b0);
        },
    }
    assert(buf@ =~= old(buf)@ + u32_bytes(byteorder, val));
}

/// Appends the eight bytes of `val`.
pub fn write_u64(val: u64, byteorder: ByteOrder, buf: &mut Vec<u8>)
    ensures
        final(buf)@ == old(buf)@ + u64_bytes(byteorder, val),
{
    reveal(u64_bytes);
    reveal(u64_of);
    let b0 = (val % 256) as u8;
    let b1 = (val / 0x100 % 256) as u8;
    let b2 = (val / 0x1_0000 % 256) as u8;
    let b3 = (val / 0x100_0000 % 256) as u8;
    let b4 = (val / 0x1_0000_0000 % 256) as u8;
    let b5 = (val / 0x100_0000_0000 % 256) as u8;
    let b6 = (val / 0x1_0000_0000_0000 % 256) as u8;
    let b7 = (val / 0x100_0000_0000_0000 % 256) as u8;
    match byteorder {
        ByteOrder::LittleEndian => {
            buf.push(b0);
            buf.push(b1);
            buf.push(b2);
            buf.push(b3);
            buf.push(b4);
            buf.push(b5);
            buf.push(b6);
            buf.push(b7);
        },
        ByteOrder::BigEndian => {
            buf.push(b7);
            buf.push(b6);
            buf.push(b5);
            buf.push(b4);
            buf.push(b3);
            buf.push(b2);
            buf.push(b1);
            buf.push(b0);
        },
    }
    assert(buf@ =~= old(buf)@ + u64_bytes(byteorder, val));
}

/// Writes the four bytes of `val` over the bytes of `buf` from `pos` on.
pub fn insert_u32(byteorder: ByteOrder, val: u32, buf: &mut Vec<u8>, pos: usize)
    requires
        pos + 4 <= old(buf)@.len(),
    ensures
        final(buf)@ == old(buf)@.subrange(0, pos as int) + u32_bytes(byteorder, val) + old(
            buf,
        )@.subrange(pos + 4, old(buf)@.len() as int),
{
    reveal(u32_bytes);
    reveal(u32_of);
    let b0 = (val % 256) as u8;
    let b1 = (val / 0x100 % 256) as u8;
    let b2 = (val / 0x1_0000 % 256) as u8;
    let b3 = (val / 0x100_0000 % 256) as u8;
    let len = buf.len();
    match byteorder {
        ByteOrder::LittleEndian => {
            buf[pos] = b0;
            buf[pos + 1] = b1;
            buf[pos + 2] = b2;
            buf[pos + 3] = b3;
        },
        ByteOrder::BigEndian => {
            buf[pos] = b3;
            buf[pos + 1] = b2;
            buf[pos + 2] = b1;
            buf[pos + 3] = b0;
        },
    }
    assert(buf@ =~= old(buf)@.subrange(0, pos as int) + u32_bytes(byteorder, val) + old(
        buf,
    )@.subrange(pos + 4, old(buf)@.len() as int));
}

/// What reading a 16-bit number from the start of `b` gives.
pub open spec fn parse_u16_spec(b: Seq<u8>, bo: ByteOrder) -> Result<(usize, u16), UnmarshalError> {
    if b.len() < 2 {
        Err(UnmarshalError::NotEnoughBytes)
    } else {
        Ok((2, u16_of(bo, b)))
    }
}

/// What reading a 32-bit number from the start of `b` gives.
pub open spec fn parse_u32_spec(b: Seq<u8>, bo: ByteOrder) -> Result<(usize, u32), UnmarshalError> {
    if b.len() < 4 {
        Err(UnmarshalError::NotEnoughBytes)
    } else {
        Ok((4, u32_of(bo, b)))
    }
}

/// What reading a 64-bit number from the start of `b` gives.
pub open spec fn parse_u64_spec(b: Seq<u8>, bo: ByteOrder) -> Result<(usize, u64), UnmarshalError> {
    if b.len() < 8 {
        Err(UnmarshalError::NotEnoughBytes)
    } else {
        Ok((8, u64_of(bo, b)))
    }
}

/// Reads a 16-bit number from the start of `number`.
pub fn parse_u16(number: &[u8], byteorder: ByteOrder) -> (r: UnmarshalResult<u16>)
    ensures
        r == parse_u16_spec(number@, byteorder),
{
    reveal(u16_bytes);
    reveal(u16_of);
    if number.len() < 2 {
        return Err(UnmarshalError::NotEnoughBytes);
    }
    let (l0, l1) = match byteorder {
        ByteOrder::LittleEndian => (number[0], number[1]),
        ByteOrder::BigEndian => (number[1], number[0]),
    };
    Ok((2, l0 as u16 + l1 as u16 * 0x100))
}

/// Reads a 32-bit number from the start of `number`.
pub fn parse_u32(number: &[u8], byteorder: ByteOrder) -> (r: UnmarshalResult<u32>)
    ensures
        r == parse_u32_spec(number@, byteorder),
{
    reveal(u32_bytes);
    reveal(u32_of);
    if number.len() < 4 {
        return Err(UnmarshalError::NotEnoughBytes);
    }
    let (l0, l1, l2, l3) = match byteorder {
        ByteOrder::LittleEndian => (number[0], number[1], number[2], number[3]),
        ByteOrder::BigEndian => (number[3], number[2], number[1], number[0]),
    };
    Ok((4, l0 as u32 + l1 as u32 * 0x100 + l2 as u32 * 0x1_0000 + l3 as u32 * 0x100_0000))
}

/// Reads a 64-bit number from the start of `number`.
pub fn parse_u64(number: &[u8], byteorder: ByteOrder) -> (r: UnmarshalResult<u64>)
    ensures
        r == parse_u64_spec(number@, byteorder),
{
    reveal(u64_bytes);
    reveal(u64_of);
    if number.len() < 8 {
        return Err(UnmarshalError::NotEnoughBytes);
    }
    let (l0, l1, l2, l3, l4, l5, l6, l7) = match byteorder {
        ByteOrder::LittleEndian => (
            number[0],
            number[1],
            number[2],
            number[3],
            number[4],
            number[5],
            number[6],
            number[7],
        ),
        ByteOrder::BigEndian => (
            number[7],
            number[6],
            number[5],
            number[4],
            number[3],
            number[2],
            number[1],
            number[0],
        ),
    };
    Ok(
        (
            8,
            l0 as u64 + l1 as u64 * 0x100 + l2 as u64 * 0x1_0000 + l3 as u64 * 0x100_0000 + l4 as u64
                * 0x1_0000_0000 + l5 as u64 * 0x100_0000_0000 + l6 as u64 * 0x1_0000_0000_0000
                + l7 as u64 * 0x100_0000_0000_0000,
        ),
    )
}

/// Appends zero bytes until the length of `buf` is a multiple of `align_to`.
pub fn pad_to_align(align_to: usize, buf: &mut Vec<u8>)
    requires
        align_to > 0,
    ensures
        final(buf)@ == old(buf)@ + zeros(padding_for(align_to as nat, old(buf)@.len())),
        final(buf)@.len() % (align_to as nat) == 0,
{
    let rest = buf.len() % align_to;
    let ghost start = buf@.len();
    if rest != 0 {
        let padding = align_to - rest;
        let mut i: usize = 0;
        while i < padding
            invariant
                i <= padding,
                buf@ == old(buf)@ + zeros(i as nat),
            decreases padding - i,
        {
            buf.push(0);
            i += 1;
            assert(buf@ =~= old(buf)@ + zeros(i as nat));
        }
        assert((start + padding) % (align_to as int) == 0) by (nonlinear_arith)
            requires
                rest == start % (align_to as nat),
                padding == align_to - rest,
                0 < rest < align_to,
        ;
    } else {
        assert(buf@ =~= old(buf)@ + zeros(0));
    }
}

/// What checking the padding of `buf` from `offset` up to the next multiple
/// of `align` gives: the number of padding bytes, all of them zero.
pub open spec fn align_offset_spec(align: nat, buf: Seq<u8>, offset: int) -> Result<
    usize,
    UnmarshalError,
> {
    let padding = padding_for(align, offset as nat);
    if buf.len() - offset < padding {
        Err(UnmarshalError::NotEnoughBytes)
    } else if exists|i: int| offset <= i < offset + padding && #[trigger] buf[i] != 0 {
        Err(UnmarshalError::PaddingContainedData)
    } else {
        Ok(padding as usize)
    }
}

/// Checks the padding of `buf` from `offset` up to the next multiple of
/// `align_to`, and says how many bytes it takes.
pub fn align_offset(align_to: usize, buf: &[u8], offset: usize) -> (r: Result<
    usize,
    UnmarshalError,
>)
    requires
        0 < align_to <= 8,
        offset <= buf@.len(),
    ensures
        r == align_offset_spec(align_to as nat, buf@, offset as int),
        r matches Ok(p) ==> p == padding_for(align_to as nat, offset as nat) && p < align_to
            && offset + p <= buf@.len() && (offset + p) % (align_to as int) == 0,
{
    let rest = offset % align_to;
    let padding = if rest == 0 {
        0
    } else {
        align_to - rest
    };
    let len = buf.len();
    assert((offset + padding) % (align_to as int) == 0) by (nonlinear_arith)
        requires
            rest == offset % align_to,
            padding == if rest == 0 {
                0
            } else {
                align_to - rest
            },
            0 <= rest < align_to,
    ;
    if len - offset < padding {
        return Err(UnmarshalError::NotEnoughBytes);
    }
    let mut i: usize = 0;
    while i < padding
        invariant
            i <= padding,
            offset + padding <= len,
            len == buf@.len(),
            padding == padding_for(align_to as nat, offset as nat),
            forall|j: int| offset <= j < offset + i ==> buf@[j] == 0,
        decreases padding - i,
    {
        if buf[offset + i] != 0 {
            return Err(UnmarshalError::PaddingContainedData);
        }
        i += 1;
    }
    Ok(padding)
}

/// The wire form of a string: its length, its UTF-8 bytes, a zero byte.
pub open spec fn string_wire(bo: ByteOrder, s: Seq<char>) -> Seq<u8> {
    u32_bytes(bo, encode_utf8(s).len() as u32) + encode_utf8(s) + seq![0u8]
}

/// The wire form of a signature: its length in one byte, its bytes, a zero byte.
pub open spec fn signature_wire(s: Seq<char>) -> Seq<u8> {
    seq![encode_utf8(s).len() as u8] + encode_utf8(s) + seq![0u8]
}

/// Appends the wire form of a string; a string longer than a `u32` can say
/// is refused and leaves `buf` as it was.
pub fn write_string(val: &str, byteorder: ByteOrder, buf: &mut Vec<u8>) -> (r: Result<
    (),
    MarshalError,
>)
    ensures
        encode_utf8(val@).len() <= u32::MAX ==> r is Ok && final(buf)@ == old(buf)@ + string_wire(
            byteorder,
            val@,
        ),
        encode_utf8(val@).len() > u32::MAX ==> r == Err::<(), MarshalError>(MarshalError::TooLong)
            && final(buf)@ == old(buf)@,
{
    let bytes = val.as_bytes();
    if bytes.len() > u32::MAX as usize {
        return Err(MarshalError::TooLong);
    }
    write_u32(bytes.len() as u32, byteorder, buf);
    buf.extend_from_slice(bytes);
    buf.push(0);
    assert(buf@ =~= old(buf)@ + string_wire(byteorder, val@));
    Ok(())
}

/// Appends the wire form of a signature; one longer than 255 bytes is
/// refused and leaves `buf` as it was.
pub fn write_signature(val: &str, buf: &mut Vec<u8>) -> (r: Result<(), MarshalError>)
    ensures
        encode_utf8(val@).len() <= 255 ==> r is Ok && final(buf)@ == old(buf)@ + signature_wire(
            val@,
        ),
        encode_utf8(val@).len() > 255 ==> r == Err::<(), MarshalError>(MarshalError::TooLong)
            && final(buf)@ == old(buf)@,
{
    let bytes = val.as_bytes();
    if bytes.len() > 255 {
        return Err(MarshalError::TooLong);
    }
    buf.push(bytes.len() as u8);
    buf.extend_from_slice(bytes);
    buf.push(0);
    assert(buf@ =~= old(buf)@ + signature_wire(val@));
    Ok(())
}

/// `core::str::from_utf8`: gives a string exactly where the bytes are
/// well-formed UTF-8, and that string has these bytes as its encoding.
#[verifier::external_body]
fn str_from_utf8<'a>(bytes: &'a [u8]) -> (r: Option<&'a str>)
    ensures
        r is Some <==> valid_utf8(bytes@),
        r matches Some(s) ==> s.spec_bytes() == bytes@,
{
    core::str::from_utf8(bytes).ok()
}

/// The text that `len` bytes after a length field of `head` bytes hold, if
/// they are UTF-8 and a zero byte follows them.
pub open spec fn text_after(b: Seq<u8>, head: int, len: int) -> Result<
    (usize, Seq<char>),
    UnmarshalError,
> {
    if b.len() < len + head + 1 {
        Err(UnmarshalError::NotEnoughBytes)
    } else if !valid_utf8(b.subrange(head, head + len)) || b[head + len] != 0 {
        Err(UnmarshalError::InvalidUtf8)
    } else {
        Ok(((len + head + 1) as usize, decode_utf8(b.subrange(head, head + len))))
    }
}

/// What reading a string from the start of `b` gives.
pub open spec fn unmarshal_str_spec(bo: ByteOrder, b: Seq<u8>) -> Result<
    (usize, Seq<char>),
    UnmarshalError,
> {
    if b.len() < 4 {
        Err(UnmarshalError::NotEnoughBytes)
    } else {
        text_after(b, 4, u32_of(bo, b) as int)
    }
}

/// What reading a signature from the start of `b` gives.
pub open spec fn unmarshal_signature_spec(b: Seq<u8>) -> Result<
    (usize, Seq<char>),
    UnmarshalError,
> {
    if b.len() < 1 {
        Err(UnmarshalError::NotEnoughBytes)
    } else {
        text_after(b, 1, b[0] as int)
    }
}

fn text_at<'a>(buf: &'a [u8], head: usize, len: usize) -> (r: UnmarshalResult<&'a str>)
    requires
        head <= 4,
        len <= u32::MAX,
    ensures
        match r {
            Ok((n, s)) => text_after(buf@, head as int, len as int) == Ok::<
                (usize, Seq<char>),
                UnmarshalError,
            >((n, s@)),
            Err(e) => text_after(buf@, head as int, len as int) == Err::<
                (usize, Seq<char>),
                UnmarshalError,
            >(e),
        },
        r matches Ok((n, _)) ==> n == len + head + 1 && n <= buf@.len(),
{
    let needed: u64 = len as u64 + head as u64 + 1;
    if (buf.len() as u64) < needed {
        return Err(UnmarshalError::NotEnoughBytes);
    }
    let text = slice_subrange(buf, head, head + len);
    match str_from_utf8(text) {
        None => Err(UnmarshalError::InvalidUtf8),
        Some(s) => {
            if buf[head + len] != 0 {
                return Err(UnmarshalError::InvalidUtf8);
            }
            proof {
                vstd::utf8::encode_utf8_decode_utf8(s@);
            }
            Ok((len + head + 1, s))
        },
    }
}

/// Reads a string from the start of `buf`; the text borrows from `buf`.
pub fn unmarshal_str<'a>(byteorder: ByteOrder, buf: &'a [u8]) -> (r: UnmarshalResult<&'a str>)
    ensures
        match r {
            Ok((n, s)) => unmarshal_str_spec(byteorder, buf@) == Ok::<
                (usize, Seq<char>),
                UnmarshalError,
            >((n, s@)),
            Err(e) => unmarshal_str_spec(byteorder, buf@) == Err::<
                (usize, Seq<char>),
                UnmarshalError,
            >(e),
        },
        r matches Ok((n, _)) ==> 5 <= n <= buf@.len(),
{
    let (_, len) = parse_u32(buf, byteorder)?;
    text_at(buf, 4, len as usize)
}

/// Reads a string from the start of `buf` into a string of its own.
pub fn unmarshal_string(byteorder: ByteOrder, buf: &[u8]) -> (r: UnmarshalResult<String>)
    ensures
        match r {
            Ok((n, s)) => unmarshal_str_spec(byteorder, buf@) == Ok::<
                (usize, Seq<char>),
                UnmarshalError,
            >((n, s@)),
            Err(e) => unmarshal_str_spec(byteorder, buf@) == Err::<
                (usize, Seq<char>),
                UnmarshalError,
            >(e),
        },
        r matches Ok((n, _)) ==> 5 <= n <= buf@.len(),
{
    let (n, s) = unmarshal_str(byteorder, buf)?;
    Ok((n, s.to_owned()))
}

/// Reads a signature from the start of `buf`; the text borrows from `buf`.
pub fn unmarshal_signature<'a>(buf: &'a [u8]) -> (r: UnmarshalResult<&'a str>)
    ensures
        match r {
            Ok((n, s)) => unmarshal_signature_spec(buf@) == Ok::<
                (usize, Seq<char>),
                UnmarshalError,
            >((n, s@)),
            Err(e) => unmarshal_signature_spec(buf@) == Err::<(usize, Seq<char>), UnmarshalError>(
                e,
            ),
        },
        r matches Ok((n, _)) ==> 2 <= n <= buf@.len(),
{
    if buf.len() < 1 {
        return Err(UnmarshalError::NotEnoughBytes);
    }
    text_at(buf, 1, buf[0] as usize)
}

} // verus!
