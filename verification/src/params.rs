//! Values whose type is known only at run time: a tree that mirrors the
//! tree of signature types.
use crate::signature;
use crate::signature::parse_description_spec;
use crate::signature::types_model;
use crate::signature::SpecType;
use crate::wire::errors::MarshalError;
use crate::wire::UnixFd;
use vstd::prelude::*;
use vstd::string::StrSliceExecFns;

pub mod equality;
pub mod message;

verus! {

/// A value of a basic type. A double is held by its 64 bits.
#[derive(Debug)]
pub enum Base {
    Double(u64),
    String(String),
    Signature(String),
    ObjectPath(String),
    Boolean(bool),
    Byte(u8),
    Int16(i16),
    Uint16(u16),
    Int32(i32),
    Uint32(u32),
    UnixFd(UnixFd),
    Int64(i64),
    Uint64(u64),
}

/// The entries of a dict, in the order in which they are written.
pub type DictMap = Vec<(Param, Param)>;

/// An array with the type of its elements.
#[derive(Debug)]
pub struct Array {
    pub element_sig: signature::Type,
    pub values: Vec<Param>,
}

/// A dict with the types of its keys and values.
#[derive(Debug)]
pub struct Dict {
    pub key_sig: signature::Base,
    pub value_sig: signature::Type,
    pub map: DictMap,
}

/// A variant with the type of its value.
#[derive(Debug)]
pub struct Variant {
    pub sig: signature::Type,
    pub value: Param,
}

/// A value of a container type.
#[derive(Debug)]
pub enum Container {
    Array(Array),
    Struct(Vec<Param>),
    Dict(Dict),
    Variant(Box<Variant>),
}

/// A value of any type.
#[derive(Debug)]
pub enum Param {
    Base(Base),
    Container(Container),
}

/// The mathematical form of a [`Param`], and of every typed value.
pub enum SpecParam {
    Byte(u8),
    Boolean(bool),
    Int16(i16),
    Uint16(u16),
    Int32(i32),
    Uint32(u32),
    Int64(i64),
    Uint64(u64),
    Double(u64),
    String(Seq<char>),
    ObjectPath(Seq<char>),
    Signature(Seq<char>),
    UnixFd(UnixFd),
    Array(SpecType, Seq<SpecParam>),
    Struct(Seq<SpecParam>),
    Dict(signature::Base, SpecType, Seq<(SpecParam, SpecParam)>),
    Variant(SpecType, Box<SpecParam>),
}

/// The types of a run of values.
pub open spec fn params_types(ps: Seq<SpecParam>) -> Seq<SpecType>
    decreases ps,
{
    if ps.len() == 0 {
        Seq::empty()
    } else {
        params_types(ps.drop_last()).push(ps.last().ty())
    }
}

impl SpecParam {
    /// The type of this value.
    pub open spec fn ty(self) -> SpecType
        decreases self,
    {
        match self {
            SpecParam::Byte(_) => SpecType::Base(signature::Base::Byte),
            SpecParam::Boolean(_) => SpecType::Base(signature::Base::Boolean),
            SpecParam::Int16(_) => SpecType::Base(signature::Base::Int16),
            SpecParam::Uint16(_) => SpecType::Base(signature::Base::Uint16),
            SpecParam::Int32(_) => SpecType::Base(signature::Base::Int32),
            SpecParam::Uint32(_) => SpecType::Base(signature::Base::Uint32),
            SpecParam::Int64(_) => SpecType::Base(signature::Base::Int64),
            SpecParam::Uint64(_) => SpecType::Base(signature::Base::Uint64),
            SpecParam::Double(_) => SpecType::Base(signature::Base::Double),
            SpecParam::String(_) => SpecType::Base(signature::Base::String),
            SpecParam::ObjectPath(_) => SpecType::Base(signature::Base::ObjectPath),
            SpecParam::Signature(_) => SpecType::Base(signature::Base::Signature),
            SpecParam::UnixFd(_) => SpecType::Base(signature::Base::UnixFd),
            SpecParam::Array(t, _) => SpecType::Array(Box::new(t)),
            SpecParam::Struct(fs) => SpecType::Struct(params_types(fs)),
            SpecParam::Dict(k, v, _) => SpecType::Dict(k, Box::new(v)),
            SpecParam::Variant(_, _) => SpecType::Variant,
        }
    }

    /// Whether this is a value of a basic type.
    pub open spec fn is_base(self) -> bool {
        self.ty() is Base
    }
}

/// The mathematical form of the first `n` values of `ps`.
pub open spec fn params_model(ps: Seq<Param>, n: nat) -> Seq<SpecParam>
    decreases ps, n,
{
    if n == 0 || n > ps.len() {
        Seq::empty()
    } else {
        params_model(ps, (n - 1) as nat).push(ps[n - 1].model())
    }
}

/// The mathematical form of the first `n` entries of `es`.
pub open spec fn entries_model(es: Seq<(Param, Param)>, n: nat) -> Seq<(SpecParam, SpecParam)>
    decreases es, n,
{
    if n == 0 || n > es.len() {
        Seq::empty()
    } else {
        entries_model(es, (n - 1) as nat).push((es[n - 1].0.model(), es[n - 1].1.model()))
    }
}

impl Base {
    pub open spec fn model(&self) -> SpecParam {
        match self {
            Base::Double(v) => SpecParam::Double(*v),
            Base::String(s) => SpecParam::String(s@),
            Base::Signature(s) => SpecParam::Signature(s@),
            Base::ObjectPath(s) => SpecParam::ObjectPath(s@),
            Base::Boolean(v) => SpecParam::Boolean(*v),
            Base::Byte(v) => SpecParam::Byte(*v),
            Base::Int16(v) => SpecParam::Int16(*v),
            Base::Uint16(v) => SpecParam::Uint16(*v),
            Base::Int32(v) => SpecParam::Int32(*v),
            Base::Uint32(v) => SpecParam::Uint32(*v),
            Base::UnixFd(v) => SpecParam::UnixFd(*v),
            Base::Int64(v) => SpecParam::Int64(*v),
            Base::Uint64(v) => SpecParam::Uint64(*v),
        }
    }

    /// The type of this value.
    pub fn sig(&self) -> (r: signature::Base)
        ensures
            SpecType::Base(r) == self@.ty(),
    {
        match self {
            Base::Double(_) => signature::Base::Double,
            Base::String(_) => signature::Base::String,
            Base::Signature(_) => signature::Base::Signature,
            Base::ObjectPath(_) => signature::Base::ObjectPath,
            Base::Boolean(_) => signature::Base::Boolean,
            Base::Byte(_) => signature::Base::Byte,
            Base::Int16(_) => signature::Base::Int16,
            Base::Uint16(_) => signature::Base::Uint16,
            Base::Int32(_) => signature::Base::Int32,
            Base::Uint32(_) => signature::Base::Uint32,
            Base::UnixFd(_) => signature::Base::UnixFd,
            Base::Int64(_) => signature::Base::Int64,
            Base::Uint64(_) => signature::Base::Uint64,
        }
    }
}

impl Container {
    pub open spec fn model(&self) -> SpecParam
        decreases self,
    {
        match self {
            Container::Array(a) => SpecParam::Array(
                a.element_sig@,
                params_model(a.values@, a.values@.len()),
            ),
            Container::Struct(fs) => SpecParam::Struct(params_model(fs@, fs@.len())),
            Container::Dict(d) => SpecParam::Dict(
                d.key_sig,
                d.value_sig@,
                entries_model(d.map@, d.map@.len()),
            ),
            Container::Variant(v) => SpecParam::Variant(v.sig@, Box::new(v.value.model())),
        }
    }
}

impl Param {
    pub open spec fn model(&self) -> SpecParam
        decreases self,
    {
        match self {
            Param::Base(b) => b.model(),
            Param::Container(c) => c.model(),
        }
    }
}

impl View for Base {
    type V = SpecParam;

    open spec fn view(&self) -> SpecParam {
        self.model()
    }
}

impl View for Container {
    type V = SpecParam;

    open spec fn view(&self) -> SpecParam {
        self.model()
    }
}

impl View for Param {
    type V = SpecParam;

    open spec fn view(&self) -> SpecParam {
        self.model()
    }
}

/// What `params_model` holds: one model per value, in order.
pub proof fn lemma_params_model(ps: Seq<Param>, n: nat)
    requires
        n <= ps.len(),
    ensures
        params_model(ps, n).len() == n,
        forall|i: int| 0 <= i < n ==> (#[trigger] params_model(ps, n)[i]) == ps[i].model(),
    decreases n,
{
    if n > 0 {
        lemma_params_model(ps, (n - 1) as nat);
    }
}

/// What `entries_model` holds: one pair of models per entry, in order.
pub proof fn lemma_entries_model(es: Seq<(Param, Param)>, n: nat)
    requires
        n <= es.len(),
    ensures
        entries_model(es, n).len() == n,
        forall|i: int|
            0 <= i < n ==> (#[trigger] entries_model(es, n)[i]) == (
                es[i].0.model(),
                es[i].1.model(),
            ),
    decreases n,
{
    if n > 0 {
        lemma_entries_model(es, (n - 1) as nat);
    }
}

/// What `params_types` holds: one type per value, in order.
pub proof fn lemma_params_types(ps: Seq<SpecParam>)
    ensures
        params_types(ps).len() == ps.len(),
        forall|i: int| 0 <= i < ps.len() ==> (#[trigger] params_types(ps)[i]) == ps[i].ty(),
    decreases ps,
{
    if ps.len() > 0 {
        lemma_params_types(ps.drop_last());
    }
}

/// Whether every value of the run has the type `t`.
pub open spec fn all_of_type(ps: Seq<SpecParam>, t: SpecType) -> bool {
    forall|i: int| 0 <= i < ps.len() ==> (#[trigger] ps[i]).ty() == t
}

/// Whether every entry has a key of type `k` and a value of type `v`.
pub open spec fn entries_of_type(
    es: Seq<(SpecParam, SpecParam)>,
    k: signature::Base,
    v: SpecType,
) -> bool {
    forall|i: int|
        0 <= i < es.len() ==> (#[trigger] es[i]).0.ty() == SpecType::Base(k) && es[i].1.ty() == v
}

impl Container {
    /// The type of this value.
    #[verifier::loop_isolation(false)]
    pub fn sig(&self) -> (r: signature::Type)
        ensures
            r@ == self@.ty(),
        decreases self,
    {
        match self {
            Container::Array(a) => signature::Type::Container(
                signature::Container::Array(Box::new(a.element_sig.duplicate())),
            ),
            Container::Dict(d) => signature::Type::Container(
                signature::Container::Dict(d.key_sig, Box::new(d.value_sig.duplicate())),
            ),
            Container::Variant(_) => signature::Type::Container(signature::Container::Variant),
            Container::Struct(fs) => {
                let mut types: Vec<signature::Type> = Vec::new();
                let mut i: usize = 0;
                while i < fs.len()
                    invariant
                        i <= fs.len(),
                        types@.len() == i,
                        forall|j: int| 0 <= j < i ==> types@[j]@ == fs@[j]@.ty(),
                    decreases fs.len() - i,
                {
                    let f = &fs[i];
                    types.push(f.sig());
                    i += 1;
                }
                proof {
                    let ps = params_model(fs@, fs@.len());
                    lemma_params_model(fs@, fs@.len());
                    lemma_params_types(ps);
                    signature::lemma_types_model(types@, types@.len());
                    assert(types_model(types@, types@.len()) =~= params_types(ps));
                }
                signature::Type::Container(
                    signature::Container::Struct(signature::StructTypes(types)),
                )
            },
        }
    }
}

impl Param {
    /// The type of this value.
    pub fn sig(&self) -> (r: signature::Type)
        ensures
            r@ == self@.ty(),
        decreases self,
    {
        match self {
            Param::Base(b) => signature::Type::Base(b.sig()),
            Param::Container(c) => c.sig(),
        }
    }
}

/// Checks that every value of an array has the type declared for its elements.
pub fn validate_array(array: &[Param], sig: &signature::Type) -> (r: Result<(), MarshalError>)
    ensures
        all_of_type(params_model(array@, array@.len()), sig@) ==> r is Ok,
        !all_of_type(params_model(array@, array@.len()), sig@) ==> r == Err::<(), MarshalError>(
            MarshalError::InvalidSignature,
        ),
{
    proof {
        lemma_params_model(array@, array@.len());
    }
    let mut i: usize = 0;
    while i < array.len()
        invariant
            i <= array.len(),
            forall|j: int| 0 <= j < i ==> array@[j]@.ty() == sig@,
            forall|j: int|
                0 <= j < array@.len() ==> (#[trigger] params_model(array@, array@.len())[j])
                    == array@[j].model(),
            params_model(array@, array@.len()).len() == array@.len(),
        decreases array.len() - i,
    {
        let t = array[i].sig();
        if !t.same(sig) {
            assert(params_model(array@, array@.len())[i as int].ty() != sig@);
            return Err(MarshalError::InvalidSignature);
        }
        i += 1;
    }
    Ok(())
}

/// Whether every key is a value of a basic type.
pub open spec fn keys_are_base(es: Seq<(SpecParam, SpecParam)>) -> bool {
    forall|i: int| 0 <= i < es.len() ==> (#[trigger] es[i]).0.is_base()
}

/// What is wrong with the entries of a dict, if anything: a key that is
/// no value of a basic type, or a key or value of another type than declared.
pub open spec fn dict_fault(
    es: Seq<(SpecParam, SpecParam)>,
    k: signature::Base,
    v: SpecType,
) -> Option<MarshalError> {
    if !keys_are_base(es) {
        Some(MarshalError::DictKeyMustBeBase)
    } else if !entries_of_type(es, k, v) {
        Some(MarshalError::InvalidSignature)
    } else {
        None
    }
}

fn all_keys_base(dict: &DictMap) -> (r: bool)
    ensures
        r == keys_are_base(entries_model(dict@, dict@.len())),
{
    proof {
        lemma_entries_model(dict@, dict@.len());
    }
    let mut i: usize = 0;
    while i < dict.len()
        invariant
            i <= dict.len(),
            forall|j: int| 0 <= j < i ==> dict@[j].0@.is_base(),
            forall|j: int|
                0 <= j < dict@.len() ==> (#[trigger] entries_model(dict@, dict@.len())[j]) == (
                    dict@[j].0.model(),
                    dict@[j].1.model(),
                ),
            entries_model(dict@, dict@.len()).len() == dict@.len(),
        decreases dict.len() - i,
    {
        match &dict[i].0 {
            Param::Base(_) => {},
            Param::Container(c) => {
                assert(!entries_model(dict@, dict@.len())[i as int].0.is_base());
                return false;
            },
        }
        i += 1;
    }
    true
}

/// Checks that every entry of a dict has a key of a basic type, and a key
/// and a value of the types declared for them.
pub fn validate_dict(dict: &DictMap, key_sig: signature::Base, value_sig: &signature::Type) -> (r:
    Result<(), MarshalError>)
    ensures
        match dict_fault(entries_model(dict@, dict@.len()), key_sig, value_sig@) {
            Some(e) => r == Err::<(), MarshalError>(e),
            None => r is Ok,
        },
{
    if !all_keys_base(dict) {
        return Err(MarshalError::DictKeyMustBeBase);
    }
    proof {
        lemma_entries_model(dict@, dict@.len());
    }
    let mut i: usize = 0;
    while i < dict.len()
        invariant
            i <= dict.len(),
            keys_are_base(entries_model(dict@, dict@.len())),
            forall|j: int|
                0 <= j < i ==> dict@[j].0@.ty() == SpecType::Base(key_sig) && dict@[j].1@.ty()
                    == value_sig@,
            forall|j: int|
                0 <= j < dict@.len() ==> (#[trigger] entries_model(dict@, dict@.len())[j]) == (
                    dict@[j].0.model(),
                    dict@[j].1.model(),
                ),
            entries_model(dict@, dict@.len()).len() == dict@.len(),
        decreases dict.len() - i,
    {
        let k = dict[i].0.sig();
        let v = dict[i].1.sig();
        if !k.same(&signature::Type::Base(key_sig)) || !v.same(value_sig) {
            assert(!(entries_model(dict@, dict@.len())[i as int].0.ty() == SpecType::Base(key_sig)
                && entries_model(dict@, dict@.len())[i as int].1.ty() == value_sig@));
            return Err(MarshalError::InvalidSignature);
        }
        i += 1;
    }
    Ok(())
}

/// Whether `c` may stand in an element of an object path.
pub open spec fn is_path_char(c: char) -> bool {
    ('a' <= c <= 'z') || ('A' <= c <= 'Z') || ('0' <= c <= '9') || c == '_'
}

/// Whether `s` is an object path: it starts with a slash, its elements are
/// not empty and hold letters, digits and underscores, and only the root
/// path ends with a slash.
pub open spec fn valid_object_path(s: Seq<char>) -> bool {
    &&& s.len() >= 1
    &&& s[0] == '/'
    &&& forall|i: int| 0 <= i < s.len() ==> is_path_char(#[trigger] s[i]) || s[i] == '/'
    &&& forall|i: int| 0 < i < s.len() ==> !(s[i - 1] == '/' && #[trigger] s[i] == '/')
    &&& (s.len() > 1 ==> s[s.len() - 1] != '/')
}

/// Whether `s` is a signature.
pub open spec fn valid_signature(s: Seq<char>) -> bool {
    parse_description_spec(s) is Ok
}

fn is_path_byte(b: u8, Ghost(c): Ghost<char>) -> (r: bool)
    requires
        c == b as char,
    ensures
        r == is_path_char(c),
{
    (97 <= b && b <= 122) || (65 <= b && b <= 90) || (48 <= b && b <= 57) || b == 95
}

/// Checks that `op` is an object path.
pub fn validate_object_path(op: &str) -> (r: Result<(), MarshalError>)
    ensures
        valid_object_path(op@) ==> r is Ok,
        !valid_object_path(op@) ==> r == Err::<(), MarshalError>(MarshalError::InvalidObjectPath),
{
    let bytes = match signature::ascii_bytes(op) {
        Some(b) => b,
        None => {
            proof {
                let i = choose|i: int|
                    0 <= i < op@.len() && !('\0' <= #[trigger] op@[i] <= '\u{7f}');
                assert(!(is_path_char(op@[i]) || op@[i] == '/'));
            }
            return Err(MarshalError::InvalidObjectPath);
        },
    };
    if bytes.len() == 0 || bytes[0] != 47 {
        return Err(MarshalError::InvalidObjectPath);
    }
    let mut i: usize = 1;
    while i < bytes.len()
        invariant
            1 <= i <= bytes.len(),
            signature::ascii_of(bytes@, op@),
            op@[0] == '/',
            forall|j: int| 0 <= j < i ==> is_path_char(#[trigger] op@[j]) || op@[j] == '/',
            forall|j: int| 0 < j < i ==> !(op@[j - 1] == '/' && #[trigger] op@[j] == '/'),
        decreases bytes.len() - i,
    {
        let b = bytes[i];
        if b == 47 {
            if bytes[i - 1] == 47 {
                assert(op@[i - 1] == '/' && op@[i as int] == '/');
                return Err(MarshalError::InvalidObjectPath);
            }
        } else if !is_path_byte(b, Ghost(op@[i as int])) {
            assert(!(is_path_char(op@[i as int]) || op@[i as int] == '/'));
            return Err(MarshalError::InvalidObjectPath);
        }
        i += 1;
    }
    if bytes.len() > 1 && bytes[bytes.len() - 1] == 47 {
        return Err(MarshalError::InvalidObjectPath);
    }
    Ok(())
}

/// Checks that `sig` is a signature, and says what is wrong where it is not.
pub fn validate_signature(sig: &str) -> (r: Result<(), signature::Error>)
    ensures
        match r {
            Ok(_) => parse_description_spec(sig@) is Ok,
            Err(e) => parse_description_spec(sig@) == Err::<Seq<SpecType>, signature::Error>(e),
        },
{
    match signature::Type::parse_description(sig) {
        Ok(_) => Ok(()),
        Err(e) => Err(e),
    }
}

/// The model of a run with one value more is the model of the run with
/// the model of that value behind it.
pub proof fn lemma_params_model_push(ps: Seq<Param>, p: Param)
    ensures
        params_model(ps.push(p), ps.len() + 1) == params_model(ps, ps.len()).push(p.model()),
{
    lemma_params_model(ps, ps.len());
    lemma_params_model(ps.push(p), ps.len() + 1);
    assert(params_model(ps.push(p), ps.len() + 1) =~= params_model(ps, ps.len()).push(p.model()));
}

/// The model of a run with one entry more is the model of the run with
/// the model of that entry behind it.
pub proof fn lemma_entries_model_push(es: Seq<(Param, Param)>, k: Param, v: Param)
    ensures
        entries_model(es.push((k, v)), es.len() + 1) == entries_model(es, es.len()).push(
            (k.model(), v.model()),
        ),
{
    lemma_entries_model(es, es.len());
    lemma_entries_model(es.push((k, v)), es.len() + 1);
    assert(entries_model(es.push((k, v)), es.len() + 1) =~= entries_model(es, es.len()).push(
        (k.model(), v.model()),
    ));
}

} // verus!
