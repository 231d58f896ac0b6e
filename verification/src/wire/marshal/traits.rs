//! What a type needs in order to be written: its signature, and how its
//! values go onto the wire.
use crate::params::SpecParam;
use crate::signature;
use crate::signature::SpecType;
use crate::wire::errors::MarshalError;
use crate::wire::marshal::container::write_type;
use crate::wire::marshal::marshal_post;
use crate::wire::marshal::marshal_spec;
use crate::wire::marshal::MarshalContext;
use vstd::prelude::*;
use vstd::string::StrSliceExecFns;
use vstd::string::StringExecFns;

pub mod base;
pub mod container;

verus! {

/// The signature of a message body while it is built: the types of the
/// values pushed so far, one after the other.
#[derive(Debug)]
pub struct SignatureBuffer {
    text: String,
}

impl View for SignatureBuffer {
    type V = Seq<char>;

    closed spec fn view(&self) -> Seq<char> {
        self.text@
    }
}

/// Whether the complete types that follow one another from `pos` on end
/// one of them exactly at `n`, or `pos` is `n` already.
pub open spec fn at_type_boundary(s: Seq<char>, pos: int, n: int) -> bool
    decreases s.len() - pos,
{
    pos == n || match signature::token_end(s, pos) {
        Some(end) => pos < end <= n && end <= s.len() && at_type_boundary(s, end, n),
        None => false,
    }
}

impl SignatureBuffer {
    /// An empty signature.
    pub fn new() -> (r: SignatureBuffer)
        ensures
            r@ == Seq::<char>::empty(),
    {
        SignatureBuffer { text: String::new() }
    }

    /// The signature with the text of `sig`.
    pub fn from_string(sig: String) -> (r: SignatureBuffer)
        ensures
            r@ == sig@,
    {
        SignatureBuffer { text: sig }
    }

    /// Appends a fragment that is known when the program is built.
    pub fn push_static(&mut self, sig: &'static str)
        ensures
            final(self)@ == old(self)@ + sig@,
    {
        self.text.append(sig);
    }

    /// Appends a fragment that was put together when the program ran.
    pub fn push_owned(&mut self, sig: String)
        ensures
            final(self)@ == old(self)@ + sig@,
    {
        self.text.append(sig.as_str());
    }

    /// Appends a fragment.
    pub fn push_str(&mut self, sig: &str)
        ensures
            final(self)@ == old(self)@ + sig@,
    {
        self.text.append(sig);
    }

    /// Appends the text of a type.
    pub fn push_type(&mut self, sig: &signature::Type)
        ensures
            final(self)@ == old(self)@ + sig@.text(),
    {
        sig.to_str(&mut self.text);
    }

    pub fn as_str(&self) -> (r: &str)
        ensures
            r@ == self@,
    {
        self.text.as_str()
    }

    /// The number of characters.
    pub fn len(&self) -> (n: usize)
        ensures
            n == self@.len(),
    {
        self.text.as_str().unicode_len()
    }

    pub fn is_empty(&self) -> (b: bool)
        ensures
            b == (self@.len() == 0),
    {
        self.text.as_str().unicode_len() == 0
    }

    /// Makes the signature empty.
    pub fn clear(&mut self)
        ensures
            final(self)@ == Seq::<char>::empty(),
    {
        self.text = String::new();
    }

    /// Keeps the first `len` characters, which must be there.
    pub(crate) fn restore(&mut self, len: usize)
        requires
            len <= old(self)@.len(),
        ensures
            final(self)@ == old(self)@.subrange(0, len as int),
    {
        let kept = self.text.as_str().substring_char(0, len);
        self.text = String::from_str(kept);
    }

    /// Keeps the first `len` characters, if they are there and end where a
    /// complete type ends; else the signature stays as it is.
    pub fn truncate(&mut self, len: usize) -> (r: Result<(), MarshalError>)
        ensures
            match r {
                Ok(_) => len <= old(self)@.len() && at_type_boundary(old(self)@, 0, len as int)
                    && final(self)@ == old(self)@.subrange(0, len as int),
                Err(e) => e == MarshalError::InvalidSignature && final(self)@ == old(self)@ && !(len
                    <= old(self)@.len() && at_type_boundary(old(self)@, 0, len as int)),
            },
    {
        let total = self.len();
        if len > total {
            return Err(MarshalError::InvalidSignature);
        }
        let mut iter = signature::SignatureIter::new(self.text.as_str());
        let mut pos: usize = 0;
        while pos < len
            invariant
                pos <= len <= total,
                total == self@.len(),
                iter.text() == self@,
                iter.position() == pos,
                self == old(self),
                at_type_boundary(self@, 0, len as int) == at_type_boundary(
                    self@,
                    pos as int,
                    len as int,
                ),
            decreases len - pos,
        {
            proof {
                signature::lemma_parse_one_advances(self@, pos as int, 0);
            }
            match iter.next() {
                None => {
                    return Err(MarshalError::InvalidSignature);
                },
                Some(token) => {
                    let end = pos + token.unicode_len();
                    if end > len {
                        return Err(MarshalError::InvalidSignature);
                    }
                    pos = end;
                },
            }
        }
        self.restore(len);
        Ok(())
    }
}

/// A type that has a D-Bus signature.
pub trait Signature {
    /// The D-Bus type of the values of this type.
    spec fn sig_spec() -> SpecType;

    /// The D-Bus type of the values of this type.
    fn signature() -> (t: signature::Type)
        ensures
            t@ == Self::sig_spec(),
    ;

    /// The alignment of the values of this type.
    fn alignment() -> (a: usize)
        ensures
            a == Self::sig_spec().alignment(),
    ;

    /// Appends the signature text of this type.
    fn sig_str(s_buf: &mut SignatureBuffer)
        ensures
            final(s_buf)@ == old(s_buf)@ + Self::sig_spec().text(),
    ;

    /// The value as the format sees it.
    spec fn param(&self) -> SpecParam;

    /// A value has the type of its Rust type.
    proof fn lemma_param_type(&self)
        ensures
            self.param().ty() == Self::sig_spec(),
    ;

    /// Whether `sig` begins with the signature text of this type.
    fn has_sig(sig: &str) -> (b: bool)
        ensures
            b == Self::sig_spec().text().is_prefix_of(sig@),
    {
        let mut own = SignatureBuffer::new();
        Self::sig_str(&mut own);
        assert(own@ =~= Self::sig_spec().text());
        crate::text::starts_with(sig, own.as_str())
    }
}

/// A type whose values can be written to the wire.
pub trait Marshal: Signature {
    /// Writes the value at its alignment.
    fn marshal(&self, ctx: &mut MarshalContext) -> (r: Result<(), MarshalError>)
        ensures
            final(ctx).byteorder == old(ctx).byteorder,
            marshal_post(
                old(ctx)@,
                final(ctx)@,
                marshal_spec(self.param(), old(ctx).byteorder, old(ctx)@),
                r,
            ),
    ;

    /// Writes the value as the content of a variant: its signature, then
    /// the value itself.
    fn marshal_as_variant(&self, ctx: &mut MarshalContext) -> (r: Result<(), MarshalError>)
        ensures
            final(ctx).byteorder == old(ctx).byteorder,
            marshal_post(
                old(ctx)@,
                final(ctx)@,
                marshal_spec(
                    SpecParam::Variant(Self::sig_spec(), Box::new(self.param())),
                    old(ctx).byteorder,
                    old(ctx)@,
                ),
                r,
            ),
    {
        proof {
            reveal(marshal_spec);
            self.lemma_param_type();
        }
        let t = Self::signature();
        write_type(&t, ctx)?;
        let ghost written = ctx@;
        let r = self.marshal(ctx);
        proof {
            crate::wire::marshal::lemma_extends_trans(old(ctx)@, written, ctx@);
        }
        r
    }
}

/// A type whose values can be the keys of a dict: its D-Bus type is a
/// basic type.
pub trait DictKey: Marshal {
    /// The basic type of the values of this type.
    spec fn key_spec() -> signature::Base;

    proof fn lemma_key_type()
        ensures
            Self::sig_spec() == SpecType::Base(Self::key_spec()),
    ;

    /// Whether the two are the same key.
    fn same_key(&self, other: &Self) -> (b: bool)
        ensures
            b == (self.param() == other.param()),
    ;
}

} // verus!
