//! Writing the basic types.
use crate::params::SpecParam;
use crate::signature;
use crate::signature::SpecType;
use crate::wire::errors::MarshalError;
use crate::wire::marshal::base::marshal_object_path;
use crate::wire::marshal::base::marshal_signature;
use crate::wire::marshal::base::marshal_string;
use crate::wire::marshal::base::marshal_u16;
use crate::wire::marshal::base::marshal_u32;
use crate::wire::marshal::base::marshal_u64;
use crate::wire::marshal::base::marshal_unixfd;
use crate::wire::marshal::marshal_base_spec;
use crate::wire::marshal::marshal_spec;
use crate::text::same_text;
use crate::wire::marshal::traits::DictKey;
use crate::wire::marshal::traits::Marshal;
use crate::wire::marshal::traits::Signature;
use crate::wire::marshal::traits::SignatureBuffer;
use crate::wire::marshal::MarshalContext;
use crate::wire::util;
use crate::wire::ObjectPath;
use crate::wire::SignatureWrapper;
use crate::wire::UnixFd;
use vstd::prelude::*;

verus! {

impl Signature for u64 {
    open spec fn sig_spec() -> SpecType {
        SpecType::Base(signature::Base::Uint64)
    }

    fn signature() -> (t: signature::Type) {
        signature::Type::Base(signature::Base::Uint64)
    }

    fn alignment() -> (a: usize) {
        8
    }

    fn sig_str(s_buf: &mut SignatureBuffer) {
        proof {
            reveal_strlit("t");
        }
        s_buf.push_static("t");
        assert(s_buf@ =~= old(s_buf)@ + Self::sig_spec().text());
    }

    open spec fn param(&self) -> SpecParam {
        SpecParam::Uint64(*self)
    }

    proof fn lemma_param_type(&self) {
    }
}

impl Marshal for u64 {
    fn marshal(&self, ctx: &mut MarshalContext) -> (r: Result<(), MarshalError>) {
        proof {
            reveal(marshal_spec);
            reveal(marshal_base_spec);
        }
        marshal_u64(*self, ctx);
        Ok(())
    }
}

impl Signature for i64 {
    open spec fn sig_spec() -> SpecType {
        SpecType::Base(signature::Base::Int64)
    }

    fn signature() -> (t: signature::Type) {
        signature::Type::Base(signature::Base::Int64)
    }

    fn alignment() -> (a: usize) {
        8
    }

    fn sig_str(s_buf: &mut SignatureBuffer) {
        proof {
            reveal_strlit("x");
        }
        s_buf.push_static("x");
        assert(s_buf@ =~= old(s_buf)@ + Self::sig_spec().text());
    }

    open spec fn param(&self) -> SpecParam {
        SpecParam::Int64(*self)
    }

    proof fn lemma_param_type(&self) {
    }
}

impl Marshal for i64 {
    fn marshal(&self, ctx: &mut MarshalContext) -> (r: Result<(), MarshalError>) {
        proof {
            reveal(marshal_spec);
            reveal(marshal_base_spec);
        }
        // two's complement, as on the wire
        marshal_u64(util::i64_to_bits(*self), ctx);
        Ok(())
    }
}

impl Signature for u32 {
    open spec fn sig_spec() -> SpecType {
        SpecType::Base(signature::Base::Uint32)
    }

    fn signature() -> (t: signature::Type) {
        signature::Type::Base(signature::Base::Uint32)
    }

    fn alignment() -> (a: usize) {
        4
    }

    fn sig_str(s_buf: &mut SignatureBuffer) {
        proof {
            reveal_strlit("u");
        }
        s_buf.push_static("u");
        assert(s_buf@ =~= old(s_buf)@ + Self::sig_spec().text());
    }

    open spec fn param(&self) -> SpecParam {
        SpecParam::Uint32(*self)
    }

    proof fn lemma_param_type(&self) {
    }
}

impl Marshal for u32 {
    fn marshal(&self, ctx: &mut MarshalContext) -> (r: Result<(), MarshalError>) {
        proof {
            reveal(marshal_spec);
            reveal(marshal_base_spec);
        }
        marshal_u32(*self, ctx);
        Ok(())
    }
}

impl Signature for i32 {
    open spec fn sig_spec() -> SpecType {
        SpecType::Base(signature::Base::Int32)
    }

    fn signature() -> (t: signature::Type) {
        signature::Type::Base(signature::Base::Int32)
    }

    fn alignment() -> (a: usize) {
        4
    }

    fn sig_str(s_buf: &mut SignatureBuffer) {
        proof {
            reveal_strlit("i");
        }
        s_buf.push_static("i");
        assert(s_buf@ =~= old(s_buf)@ + Self::sig_spec().text());
    }

    open spec fn param(&self) -> SpecParam {
        SpecParam::Int32(*self)
    }

    proof fn lemma_param_type(&self) {
    }
}

impl Marshal for i32 {
    fn marshal(&self, ctx: &mut MarshalContext) -> (r: Result<(), MarshalError>) {
        proof {
            reveal(marshal_spec);
            reveal(marshal_base_spec);
        }
        // two's complement, as on the wire
        marshal_u32(util::i32_to_bits(*self), ctx);
        Ok(())
    }
}

impl Signature for u16 {
    open spec fn sig_spec() -> SpecType {
        SpecType::Base(signature::Base::Uint16)
    }

    fn signature() -> (t: signature::Type) {
        signature::Type::Base(signature::Base::Uint16)
    }

    fn alignment() -> (a: usize) {
        2
    }

    fn sig_str(s_buf: &mut SignatureBuffer) {
        proof {
            reveal_strlit("q");
        }
        s_buf.push_static("q");
        assert(s_buf@ =~= old(s_buf)@ + Self::sig_spec().text());
    }

    open spec fn param(&self) -> SpecParam {
        SpecParam::Uint16(*self)
    }

    proof fn lemma_param_type(&self) {
    }
}

impl Marshal for u16 {
    fn marshal(&self, ctx: &mut MarshalContext) -> (r: Result<(), MarshalError>) {
        proof {
            reveal(marshal_spec);
            reveal(marshal_base_spec);
        }
        marshal_u16(*self, ctx);
        Ok(())
    }
}

impl Signature for i16 {
    open spec fn sig_spec() -> SpecType {
        SpecType::Base(signature::Base::Int16)
    }

    fn signature() -> (t: signature::Type) {
        signature::Type::Base(signature::Base::Int16)
    }

    fn alignment() -> (a: usize) {
        2
    }

    fn sig_str(s_buf: &mut SignatureBuffer) {
        proof {
            reveal_strlit("n");
        }
        s_buf.push_static("n");
        assert(s_buf@ =~= old(s_buf)@ + Self::sig_spec().text());
    }

    open spec fn param(&self) -> SpecParam {
        SpecParam::Int16(*self)
    }

    proof fn lemma_param_type(&self) {
    }
}

impl Marshal for i16 {
    fn marshal(&self, ctx: &mut MarshalContext) -> (r: Result<(), MarshalError>) {
        proof {
            reveal(marshal_spec);
            reveal(marshal_base_spec);
        }
        // two's complement, as on the wire
        marshal_u16(util::i16_to_bits(*self), ctx);
        Ok(())
    }
}

impl Signature for u8 {
    open spec fn sig_spec() -> SpecType {
        SpecType::Base(signature::Base::Byte)
    }

    fn signature() -> (t: signature::Type) {
        signature::Type::Base(signature::Base::Byte)
    }

    fn alignment() -> (a: usize) {
        1
    }

    fn sig_str(s_buf: &mut SignatureBuffer) {
        proof {
            reveal_strlit("y");
        }
        s_buf.push_static("y");
        assert(s_buf@ =~= old(s_buf)@ + Self::sig_spec().text());
    }

    open spec fn param(&self) -> SpecParam {
        SpecParam::Byte(*self)
    }

    proof fn lemma_param_type(&self) {
    }
}

impl Marshal for u8 {
    fn marshal(&self, ctx: &mut MarshalContext) -> (r: Result<(), MarshalError>) {
        proof {
            reveal(marshal_spec);
            reveal(marshal_base_spec);
        }
        ctx.buf.push(*self);
        assert(ctx@.buf =~= old(ctx)@.buf + seq![*self]);
        Ok(())
    }
}

impl Signature for bool {
    open spec fn sig_spec() -> SpecType {
        SpecType::Base(signature::Base::Boolean)
    }

    fn signature() -> (t: signature::Type) {
        signature::Type::Base(signature::Base::Boolean)
    }

    fn alignment() -> (a: usize) {
        4
    }

    fn sig_str(s_buf: &mut SignatureBuffer) {
        proof {
            reveal_strlit("b");
        }
        s_buf.push_static("b");
        assert(s_buf@ =~= old(s_buf)@ + Self::sig_spec().text());
    }

    open spec fn param(&self) -> SpecParam {
        SpecParam::Boolean(*self)
    }

    proof fn lemma_param_type(&self) {
    }
}

impl Marshal for bool {
    fn marshal(&self, ctx: &mut MarshalContext) -> (r: Result<(), MarshalError>) {
        proof {
            reveal(marshal_spec);
            reveal(marshal_base_spec);
        }
        marshal_u32(
            if *self {
                1
            } else {
                0
            },
            ctx,
        );
        Ok(())
    }
}

impl Signature for String {
    open spec fn sig_spec() -> SpecType {
        SpecType::Base(signature::Base::String)
    }

    fn signature() -> (t: signature::Type) {
        signature::Type::Base(signature::Base::String)
    }

    fn alignment() -> (a: usize) {
        4
    }

    fn sig_str(s_buf: &mut SignatureBuffer) {
        proof {
            reveal_strlit("s");
        }
        s_buf.push_static("s");
        assert(s_buf@ =~= old(s_buf)@ + Self::sig_spec().text());
    }

    open spec fn param(&self) -> SpecParam {
        SpecParam::String(self@)
    }

    proof fn lemma_param_type(&self) {
    }
}

impl Marshal for String {
    fn marshal(&self, ctx: &mut MarshalContext) -> (r: Result<(), MarshalError>) {
        proof {
            reveal(marshal_spec);
            reveal(marshal_base_spec);
        }
        marshal_string(self.as_str(), ctx)
    }
}

impl Signature for str {
    open spec fn sig_spec() -> SpecType {
        SpecType::Base(signature::Base::String)
    }

    fn signature() -> (t: signature::Type) {
        signature::Type::Base(signature::Base::String)
    }

    fn alignment() -> (a: usize) {
        4
    }

    fn sig_str(s_buf: &mut SignatureBuffer) {
        proof {
            reveal_strlit("s");
        }
        s_buf.push_static("s");
        assert(s_buf@ =~= old(s_buf)@ + Self::sig_spec().text());
    }

    open spec fn param(&self) -> SpecParam {
        SpecParam::String(self@)
    }

    proof fn lemma_param_type(&self) {
    }
}

impl Marshal for str {
    fn marshal(&self, ctx: &mut MarshalContext) -> (r: Result<(), MarshalError>) {
        proof {
            reveal(marshal_spec);
            reveal(marshal_base_spec);
        }
        marshal_string(self, ctx)
    }
}

impl Signature for ObjectPath {
    open spec fn sig_spec() -> SpecType {
        SpecType::Base(signature::Base::ObjectPath)
    }

    fn signature() -> (t: signature::Type) {
        signature::Type::Base(signature::Base::ObjectPath)
    }

    fn alignment() -> (a: usize) {
        4
    }

    fn sig_str(s_buf: &mut SignatureBuffer) {
        proof {
            reveal_strlit("o");
        }
        s_buf.push_static("o");
        assert(s_buf@ =~= old(s_buf)@ + Self::sig_spec().text());
    }

    open spec fn param(&self) -> SpecParam {
        SpecParam::ObjectPath(self@)
    }

    proof fn lemma_param_type(&self) {
    }
}

impl Marshal for ObjectPath {
    fn marshal(&self, ctx: &mut MarshalContext) -> (r: Result<(), MarshalError>) {
        proof {
            reveal(marshal_spec);
            reveal(marshal_base_spec);
        }
        marshal_object_path(self.as_str(), ctx)
    }
}

impl Signature for SignatureWrapper {
    open spec fn sig_spec() -> SpecType {
        SpecType::Base(signature::Base::Signature)
    }

    fn signature() -> (t: signature::Type) {
        signature::Type::Base(signature::Base::Signature)
    }

    fn alignment() -> (a: usize) {
        1
    }

    fn sig_str(s_buf: &mut SignatureBuffer) {
        proof {
            reveal_strlit("g");
        }
        s_buf.push_static("g");
        assert(s_buf@ =~= old(s_buf)@ + Self::sig_spec().text());
    }

    open spec fn param(&self) -> SpecParam {
        SpecParam::Signature(self@)
    }

    proof fn lemma_param_type(&self) {
    }
}

impl Marshal for SignatureWrapper {
    fn marshal(&self, ctx: &mut MarshalContext) -> (r: Result<(), MarshalError>) {
        proof {
            reveal(marshal_spec);
            reveal(marshal_base_spec);
        }
        marshal_signature(self.as_str(), ctx)
    }
}

impl Signature for UnixFd {
    open spec fn sig_spec() -> SpecType {
        SpecType::Base(signature::Base::UnixFd)
    }

    fn signature() -> (t: signature::Type) {
        signature::Type::Base(signature::Base::UnixFd)
    }

    fn alignment() -> (a: usize) {
        4
    }

    fn sig_str(s_buf: &mut SignatureBuffer) {
        proof {
            reveal_strlit("h");
        }
        s_buf.push_static("h");
        assert(s_buf@ =~= old(s_buf)@ + Self::sig_spec().text());
    }

    open spec fn param(&self) -> SpecParam {
        SpecParam::UnixFd(*self)
    }

    proof fn lemma_param_type(&self) {
    }
}

impl Marshal for UnixFd {
    fn marshal(&self, ctx: &mut MarshalContext) -> (r: Result<(), MarshalError>) {
        proof {
            reveal(marshal_spec);
            reveal(marshal_base_spec);
        }
        marshal_unixfd(*self, ctx)
    }
}

impl DictKey for u64 {
    open spec fn key_spec() -> signature::Base {
        signature::Base::Uint64
    }

    proof fn lemma_key_type() {
    }

    fn same_key(&self, other: &Self) -> (b: bool) {
        *self == *other
    }
}

impl DictKey for i64 {
    open spec fn key_spec() -> signature::Base {
        signature::Base::Int64
    }

    proof fn lemma_key_type() {
    }

    fn same_key(&self, other: &Self) -> (b: bool) {
        *self == *other
    }
}

impl DictKey for u32 {
    open spec fn key_spec() -> signature::Base {
        signature::Base::Uint32
    }

    proof fn lemma_key_type() {
    }

    fn same_key(&self, other: &Self) -> (b: bool) {
        *self == *other
    }
}

impl DictKey for i32 {
    open spec fn key_spec() -> signature::Base {
        signature::Base::Int32
    }

    proof fn lemma_key_type() {
    }

    fn same_key(&self, other: &Self) -> (b: bool) {
        *self == *other
    }
}

impl DictKey for u16 {
    open spec fn key_spec() -> signature::Base {
        signature::Base::Uint16
    }

    proof fn lemma_key_type() {
    }

    fn same_key(&self, other: &Self) -> (b: bool) {
        *self == *other
    }
}

impl DictKey for i16 {
    open spec fn key_spec() -> signature::Base {
        signature::Base::Int16
    }

    proof fn lemma_key_type() {
    }

    fn same_key(&self, other: &Self) -> (b: bool) {
        *self == *other
    }
}

impl DictKey for u8 {
    open spec fn key_spec() -> signature::Base {
        signature::Base::Byte
    }

    proof fn lemma_key_type() {
    }

    fn same_key(&self, other: &Self) -> (b: bool) {
        *self == *other
    }
}

impl DictKey for bool {
    open spec fn key_spec() -> signature::Base {
        signature::Base::Boolean
    }

    proof fn lemma_key_type() {
    }

    fn same_key(&self, other: &Self) -> (b: bool) {
        *self == *other
    }
}

impl DictKey for String {
    open spec fn key_spec() -> signature::Base {
        signature::Base::String
    }

    proof fn lemma_key_type() {
    }

    fn same_key(&self, other: &Self) -> (b: bool) {
        same_text(self.as_str(), other.as_str())
    }
}

impl DictKey for str {
    open spec fn key_spec() -> signature::Base {
        signature::Base::String
    }

    proof fn lemma_key_type() {
    }

    fn same_key(&self, other: &Self) -> (b: bool) {
        same_text(self, other)
    }
}

impl DictKey for ObjectPath {
    open spec fn key_spec() -> signature::Base {
        signature::Base::ObjectPath
    }

    proof fn lemma_key_type() {
    }

    fn same_key(&self, other: &Self) -> (b: bool) {
        same_text(self.as_str(), other.as_str())
    }
}

impl DictKey for SignatureWrapper {
    open spec fn key_spec() -> signature::Base {
        signature::Base::Signature
    }

    proof fn lemma_key_type() {
    }

    fn same_key(&self, other: &Self) -> (b: bool) {
        same_text(self.as_str(), other.as_str())
    }
}

impl DictKey for UnixFd {
    open spec fn key_spec() -> signature::Base {
        signature::Base::UnixFd
    }

    proof fn lemma_key_type() {
    }

    fn same_key(&self, other: &Self) -> (b: bool) {
        self.fd == other.fd
    }
}

} // verus!
