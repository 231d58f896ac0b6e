//! Writing values: the format as a function of the value, and the cursor
//! that the writers share.
use crate::params::all_of_type;
use crate::params::dict_fault;
use crate::params::valid_object_path;
use crate::params::SpecParam;
use crate::signature;
use crate::signature::SpecType;
use crate::wire::errors::MarshalError;
use crate::wire::util;
use crate::wire::util::padding_for;
use crate::wire::util::zeros;
use crate::wire::UnixFd;
use crate::ByteOrder;
use vstd::prelude::*;
use vstd::utf8::encode_utf8;

pub mod base;
pub mod container;
pub mod traits;

verus! {

/// The most bytes that the elements of one array or dict may take: 2^26.
pub const MAX_ARRAY_LEN: usize = 0x400_0000;

/// What has been written: the payload and the file descriptors beside it.
#[verifier::ext_equal]
pub struct Wire {
    pub buf: Seq<u8>,
    pub fds: Seq<UnixFd>,
}

/// The write cursor: where bytes and file descriptors are appended, and in
/// which byte order.
#[derive(Debug)]
pub struct MarshalContext {
    pub buf: Vec<u8>,
    pub fds: Vec<UnixFd>,
    pub byteorder: ByteOrder,
}

impl View for MarshalContext {
    type V = Wire;

    open spec fn view(&self) -> Wire {
        Wire { buf: self.buf@, fds: self.fds@ }
    }
}

impl Wire {
    /// With zero bytes added up to the next multiple of `align`.
    pub open spec fn pad(self, align: nat) -> Wire {
        Wire { buf: self.buf + zeros(padding_for(align, self.buf.len())), fds: self.fds }
    }

    /// With `bytes` added.
    pub open spec fn put(self, bytes: Seq<u8>) -> Wire {
        Wire { buf: self.buf + bytes, fds: self.fds }
    }

    /// Ready for the first element of an array or dict whose elements are
    /// aligned to `align`: padded to 4, four bytes kept free for the length,
    /// padded to `align`.
    pub open spec fn open_collection(self, align: nat) -> Wire {
        self.pad(4).put(zeros(4)).pad(align)
    }

    /// Whether `self` is where `before` was, with more written behind it.
    pub open spec fn extends(self, before: Wire) -> bool {
        before.buf.is_prefix_of(self.buf) && before.fds.is_prefix_of(self.fds)
    }
}

/// What extends an extension extends what that extension extends.
pub proof fn lemma_extends_trans(a: Wire, b: Wire, c: Wire)
    requires
        b.extends(a),
        c.extends(b),
    ensures
        c.extends(a),
{
}

impl MarshalContext {
    /// An empty cursor.
    pub fn new(byteorder: ByteOrder) -> (r: MarshalContext)
        ensures
            r@.buf == Seq::<u8>::empty(),
            r@.fds == Seq::<UnixFd>::empty(),
            r.byteorder == byteorder,
    {
        MarshalContext { buf: Vec::new(), fds: Vec::new(), byteorder }
    }

    /// Appends zero bytes up to the next multiple of `alignment`.
    pub fn align_to(&mut self, alignment: usize)
        requires
            alignment > 0,
        ensures
            final(self)@ == old(self)@.pad(alignment as nat),
            final(self)@.extends(old(self)@),
            final(self).byteorder == old(self).byteorder,
            final(self)@.buf.len() % (alignment as nat) == 0,
    {
        util::pad_to_align(alignment, &mut self.buf);
    }
}

/// Why a text cannot be written as a signature value, if it cannot.
pub open spec fn signature_fault(s: Seq<char>) -> Option<MarshalError> {
    if s.len() > signature::MAX_SIGNATURE_LEN {
        Some(MarshalError::TooLong)
    } else if !signature::all_signature_chars(s) {
        Some(MarshalError::InvalidSignatureChar)
    } else {
        match signature::parse_all(s, 0, Seq::empty()) {
            Err(e) => Some(MarshalError::of_signature(e)),
            Ok(_) => None,
        }
    }
}

/// Why the signature of a type cannot be written, if it cannot: a reader
/// would not take it back.
pub open spec fn type_fault(t: SpecType) -> Option<MarshalError> {
    if !t.wf() {
        Some(MarshalError::EmptyStruct)
    } else if t.depth() > signature::MAX_NESTING_DEPTH {
        Some(MarshalError::ExceedsMaxDepth)
    } else if t.text().len() > signature::MAX_SIGNATURE_LEN {
        Some(MarshalError::TooLong)
    } else {
        None
    }
}

/// The wire after a value of a basic type has been written to `w`.
#[verifier::opaque]
pub open spec fn marshal_base_spec(p: SpecParam, bo: ByteOrder, w: Wire) -> Result<
    Wire,
    MarshalError,
> {
    match p {
        SpecParam::Byte(v) => Ok(w.put(seq![v])),
        SpecParam::Boolean(v) => Ok(
            w.pad(4).put(
                util::u32_bytes(
                    bo,
                    if v {
                        1
                    } else {
                        0
                    },
                ),
            ),
        ),
        SpecParam::Int16(v) => Ok(w.pad(2).put(util::u16_bytes(bo, util::i16_bits(v)))),
        SpecParam::Uint16(v) => Ok(w.pad(2).put(util::u16_bytes(bo, v))),
        SpecParam::Int32(v) => Ok(w.pad(4).put(util::u32_bytes(bo, util::i32_bits(v)))),
        SpecParam::Uint32(v) => Ok(w.pad(4).put(util::u32_bytes(bo, v))),
        SpecParam::Int64(v) => Ok(w.pad(8).put(util::u64_bytes(bo, util::i64_bits(v)))),
        SpecParam::Uint64(v) => Ok(w.pad(8).put(util::u64_bytes(bo, v))),
        SpecParam::Double(v) => Ok(w.pad(8).put(util::u64_bytes(bo, v))),
        SpecParam::String(s) => if encode_utf8(s).len() > u32::MAX {
            Err(MarshalError::TooLong)
        } else {
            Ok(w.pad(4).put(util::string_wire(bo, s)))
        },
        SpecParam::ObjectPath(s) => if !valid_object_path(s) {
            Err(MarshalError::InvalidObjectPath)
        } else if encode_utf8(s).len() > u32::MAX {
            Err(MarshalError::TooLong)
        } else {
            Ok(w.pad(4).put(util::string_wire(bo, s)))
        },
        SpecParam::Signature(s) => match signature_fault(s) {
            Some(e) => Err(e),
            None => Ok(w.put(util::signature_wire(s))),
        },
        SpecParam::UnixFd(fd) => if w.fds.len() > u32::MAX {
            Err(MarshalError::FdIndexOverflow)
        } else {
            Ok(
                Wire {
                    buf: w.pad(4).put(util::u32_bytes(bo, w.fds.len() as u32)).buf,
                    fds: w.fds.push(fd),
                },
            )
        },
        _ => Ok(w),
    }
}

/// The wire of a finished array or dict: the length of its elements is
/// written into the four bytes that were kept free for it. More than 2^26
/// bytes of elements are refused.
pub open spec fn close_collection(
    bo: ByteOrder,
    w: Wire,
    align: nat,
    filled: Result<Wire, MarshalError>,
) -> Result<Wire, MarshalError> {
    match filled {
        Err(e) => Err(e),
        Ok(end) => {
            let len_pos = w.pad(4).buf.len() as int;
            let len = end.buf.len() - w.open_collection(align).buf.len();
            if len > MAX_ARRAY_LEN {
                Err(MarshalError::TooLong)
            } else {
                Ok(
                    Wire {
                        buf: end.buf.subrange(0, len_pos) + util::u32_bytes(bo, len as u32)
                            + end.buf.subrange(len_pos + 4, end.buf.len() as int),
                        fds: end.fds,
                    },
                )
            }
        },
    }
}

/// The wire after the value `p` has been written to `w`, or why it cannot
/// be written.
#[verifier::opaque]
pub open spec fn marshal_spec(p: SpecParam, bo: ByteOrder, w: Wire) -> Result<Wire, MarshalError>
    decreases p, 0nat,
{
    match p {
        SpecParam::Array(t, vs) => if !all_of_type(vs, t) {
            Err(MarshalError::InvalidSignature)
        } else {
            close_collection(
                bo,
                w,
                t.alignment(),
                marshal_seq(vs, vs.len(), bo, w.open_collection(t.alignment())),
            )
        },
        SpecParam::Struct(fs) => if fs.len() == 0 {
            Err(MarshalError::EmptyStruct)
        } else {
            marshal_seq(fs, fs.len(), bo, w.pad(8))
        },
        SpecParam::Dict(k, v, es) => match dict_fault(es, k, v) {
            Some(e) => Err(e),
            None => close_collection(
                bo,
                w,
                8,
                marshal_entries(es, es.len(), bo, w.open_collection(8)),
            ),
        },
        SpecParam::Variant(t, v) => if v.ty() != t {
            Err(MarshalError::VariantSigMismatch)
        } else {
            match type_fault(t) {
                Some(e) => Err(e),
                None => marshal_spec(*v, bo, w.put(util::signature_wire(t.text()))),
            }
        },
        _ => marshal_base_spec(p, bo, w),
    }
}

/// The wire after the first `n` values of `ps` have been written to `w` in
/// order, or why the first of them that cannot be written cannot.
pub open spec fn marshal_seq(ps: Seq<SpecParam>, n: nat, bo: ByteOrder, w: Wire) -> Result<
    Wire,
    MarshalError,
>
    decreases ps, n,
{
    if n == 0 || n > ps.len() {
        Ok(w)
    } else {
        match marshal_seq(ps, (n - 1) as nat, bo, w) {
            Err(e) => Err(e),
            Ok(w1) => marshal_spec(ps[n - 1], bo, w1),
        }
    }
}

/// The wire after the first `n` entries of `es` have been written to `w`
/// in order: each entry is aligned to 8, then come its key and its value.
pub open spec fn marshal_entries(
    es: Seq<(SpecParam, SpecParam)>,
    n: nat,
    bo: ByteOrder,
    w: Wire,
) -> Result<Wire, MarshalError>
    decreases es, n,
{
    if n == 0 || n > es.len() {
        Ok(w)
    } else {
        match marshal_entries(es, (n - 1) as nat, bo, w) {
            Err(e) => Err(e),
            Ok(w1) => match marshal_spec(es[n - 1].0, bo, w1.pad(8)) {
                Err(e) => Err(e),
                Ok(w2) => marshal_spec(es[n - 1].1, bo, w2),
            },
        }
    }
}

/// What a writer owes: the wire that the format calls for, or its error;
/// and whatever happens, what was there before is still there.
pub open spec fn marshal_post(
    before: Wire,
    after: Wire,
    wanted: Result<Wire, MarshalError>,
    r: Result<(), MarshalError>,
) -> bool {
    &&& after.extends(before)
    &&& match wanted {
        Ok(w) => r is Ok && after.buf == w.buf && after.fds == w.fds,
        Err(e) => r == Err::<(), MarshalError>(e),
    }
}

/// What writing a container comes to, one kind at a time.
pub proof fn lemma_marshal_containers(bo: ByteOrder, w: Wire)
    ensures
        forall|fs: Seq<SpecParam>| #[trigger]
            marshal_spec(SpecParam::Struct(fs), bo, w) == if fs.len() == 0 {
                Err::<Wire, MarshalError>(MarshalError::EmptyStruct)
            } else {
                marshal_seq(fs, fs.len(), bo, w.pad(8))
            },
        forall|t: SpecType, vs: Seq<SpecParam>| #[trigger]
            marshal_spec(SpecParam::Array(t, vs), bo, w) == if !all_of_type(vs, t) {
                Err::<Wire, MarshalError>(MarshalError::InvalidSignature)
            } else {
                close_collection(
                    bo,
                    w,
                    t.alignment(),
                    marshal_seq(vs, vs.len(), bo, w.open_collection(t.alignment())),
                )
            },
        forall|k: signature::Base, v: SpecType, es: Seq<(SpecParam, SpecParam)>| #[trigger]
            marshal_spec(SpecParam::Dict(k, v, es), bo, w) == match dict_fault(es, k, v) {
                Some(e) => Err::<Wire, MarshalError>(e),
                None => close_collection(
                    bo,
                    w,
                    8,
                    marshal_entries(es, es.len(), bo, w.open_collection(8)),
                ),
            },
{
    reveal(marshal_spec);
}

/// Writing one value more: the run so far, then that value.
pub proof fn lemma_marshal_seq_step(ps: Seq<SpecParam>, n: nat, bo: ByteOrder, w: Wire)
    requires
        n < ps.len(),
    ensures
        marshal_seq(ps, 0, bo, w) == Ok::<Wire, MarshalError>(w),
        marshal_seq(ps, n + 1, bo, w) == match marshal_seq(ps, n, bo, w) {
            Err(e) => Err(e),
            Ok(w1) => marshal_spec(ps[n as int], bo, w1),
        },
{
    reveal(marshal_spec);
}

/// Writing one entry more: the run so far, padding to 8, the key, the value.
pub proof fn lemma_marshal_entries_step(
    es: Seq<(SpecParam, SpecParam)>,
    n: nat,
    bo: ByteOrder,
    w: Wire,
)
    requires
        n < es.len(),
    ensures
        marshal_entries(es, 0, bo, w) == Ok::<Wire, MarshalError>(w),
        marshal_entries(es, n + 1, bo, w) == match marshal_entries(es, n, bo, w) {
            Err(e) => Err(e),
            Ok(w1) => match marshal_spec(es[n as int].0, bo, w1.pad(8)) {
                Err(e) => Err(e),
                Ok(w2) => marshal_spec(es[n as int].1, bo, w2),
            },
        },
{
    reveal(marshal_spec);
}

/// Writing no value, or no entry, changes nothing.
pub proof fn lemma_marshal_none(bo: ByteOrder, w: Wire)
    ensures
        forall|ps: Seq<SpecParam>| #[trigger]
            marshal_seq(ps, 0, bo, w) == Ok::<Wire, MarshalError>(w),
        forall|es: Seq<(SpecParam, SpecParam)>| #[trigger]
            marshal_entries(es, 0, bo, w) == Ok::<Wire, MarshalError>(w),
{
    reveal(marshal_spec);
}

} // verus!
