//! Texts and their UTF-8 bytes: comparing texts by their bytes.
use vstd::prelude::*;
use vstd::string::StringSliceAdditionalSpecFns;
use vstd::utf8::decode_utf8;
use vstd::utf8::encode_utf8;
use vstd::utf8::is_char_boundary;
use vstd::utf8::length_of_first_scalar;
use vstd::utf8::pop_first_scalar;
use vstd::utf8::valid_utf8;

verus! {

/// Where two UTF-8 texts stand one behind the other, a character starts
/// where the second text starts.
pub proof fn lemma_boundary_between(b1: Seq<u8>, b2: Seq<u8>)
    requires
        valid_utf8(b1),
        valid_utf8(b2),
    ensures
        valid_utf8(b1 + b2),
        is_char_boundary(b1 + b2, b1.len() as int),
    decreases b1.len(),
{
    vstd::utf8::valid_utf8_concat(b1, b2);
    if b1.len() > 0 {
        let rest = pop_first_scalar(b1);
        assert(pop_first_scalar(b1 + b2) =~= rest + b2);
        assert(length_of_first_scalar(b1 + b2) == length_of_first_scalar(b1));
        assert(rest.len() == b1.len() - length_of_first_scalar(b1));
        lemma_boundary_between(rest, b2);
    }
}

/// The bytes of texts that stand one behind the other are their bytes,
/// one behind the other.
pub proof fn lemma_encode_concat(a: Seq<char>, b: Seq<char>)
    ensures
        encode_utf8(a + b) == encode_utf8(a) + encode_utf8(b),
        is_char_boundary(encode_utf8(a + b), encode_utf8(a).len() as int),
{
    let x = encode_utf8(a);
    let y = encode_utf8(b);
    let z = x + y;
    vstd::utf8::encode_utf8_valid_utf8(a);
    vstd::utf8::encode_utf8_valid_utf8(b);
    lemma_boundary_between(x, y);
    vstd::utf8::decode_utf8_split(z, x.len() as int);
    assert(z.subrange(0, x.len() as int) =~= x);
    assert(z.subrange(x.len() as int, z.len() as int) =~= y);
    vstd::utf8::encode_utf8_decode_utf8(a);
    vstd::utf8::encode_utf8_decode_utf8(b);
    assert(decode_utf8(z) =~= a + b);
    vstd::utf8::decode_utf8_encode_utf8(z);
}

/// Whether the two texts are the same.
pub fn same_text(a: &str, b: &str) -> (r: bool)
    ensures
        r == (a@ == b@),
{
    let x = a.as_bytes();
    let y = b.as_bytes();
    proof {
        vstd::utf8::encode_utf8_decode_utf8(a@);
        vstd::utf8::encode_utf8_decode_utf8(b@);
    }
    if x.len() != y.len() {
        return false;
    }
    let mut i: usize = 0;
    while i < x.len()
        invariant
            i <= x.len(),
            x@.len() == y@.len(),
            x@ == a.spec_bytes(),
            y@ == b.spec_bytes(),
            forall|j: int| 0 <= j < i ==> x@[j] == y@[j],
        decreases x.len() - i,
    {
        if x[i] != y[i] {
            return false;
        }
        i += 1;
    }
    assert(x@ =~= y@);
    true
}

/// Whether `s` begins with the characters of `prefix`.
pub fn starts_with(s: &str, prefix: &str) -> (r: bool)
    ensures
        r == prefix@.is_prefix_of(s@),
{
    let x = s.as_bytes();
    let p = prefix.as_bytes();
    let n = p.len();
    proof {
        vstd::utf8::encode_utf8_decode_utf8(s@);
        vstd::utf8::encode_utf8_decode_utf8(prefix@);
        vstd::utf8::encode_utf8_valid_utf8(s@);
        vstd::utf8::encode_utf8_valid_utf8(prefix@);
        if prefix@.is_prefix_of(s@) {
            let more = s@.subrange(prefix@.len() as int, s@.len() as int);
            assert(s@ =~= prefix@ + more);
            lemma_encode_concat(prefix@, more);
        }
    }
    if x.len() < n {
        return false;
    }
    let mut i: usize = 0;
    while i < n
        invariant
            i <= n <= x.len(),
            n == p.len(),
            x@ == s.spec_bytes(),
            p@ == prefix.spec_bytes(),
            prefix@.is_prefix_of(s@) ==> x@.subrange(0, n as int) == p@,
            forall|j: int| 0 <= j < i ==> x@[j] == p@[j],
        decreases n - i,
    {
        if x[i] != p[i] {
            assert(x@.subrange(0, n as int)[i as int] == x@[i as int]);
            return false;
        }
        i += 1;
    }
    if !s.is_char_boundary(n) {
        return false;
    }
    proof {
        assert(x@.subrange(0, n as int) =~= p@);
        vstd::utf8::decode_utf8_split(x@, n as int);
        assert(prefix@ =~= s@.subrange(0, prefix@.len() as int));
    }
    true
}

} // verus!
