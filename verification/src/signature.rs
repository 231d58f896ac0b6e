//! The D-Bus signature grammar: a typed tree, its text form, and the parser
//! between the two.
use vstd::prelude::*;
use vstd::string::StrSliceExecFns;
use vstd::string::StringSliceAdditionalSpecFns;
use vstd::utf8::is_ascii_chars_encode_utf8;
use vstd::utf8::is_ascii_chars;

pub mod equality;

verus! {

/// The longest signature text that D-Bus accepts.
pub const MAX_SIGNATURE_LEN: usize = 255;

/// The deepest nesting of arrays, dicts and structs that D-Bus accepts.
pub const MAX_NESTING_DEPTH: usize = 32;

/// Why a text is not a signature.
#[derive(Clone, Copy, Debug, PartialEq, Eq, Structural)]
pub enum Error {
    InvalidSignature,
    ExceedsMaxDepth,
    TooLong,
    EmptyStruct,
}

/// The basic types.
#[derive(Clone, Copy, Debug, PartialEq, Eq, Structural)]
pub enum Base {
    Byte,
    Int16,
    Uint16,
    Int32,
    Uint32,
    UnixFd,
    Int64,
    Uint64,
    Double,
    String,
    Signature,
    ObjectPath,
    Boolean,
}

/// The member types of a struct; never empty once built with [`StructTypes::new`].
#[derive(Debug)]
pub struct StructTypes(pub Vec<Type>);

/// The container types. `Dict` stands for the whole `a{KV}`.
#[derive(Debug)]
pub enum Container {
    Array(Box<Type>),
    Struct(StructTypes),
    Dict(Base, Box<Type>),
    Variant,
}

/// One complete type.
#[derive(Debug)]
pub enum Type {
    Base(Base),
    Container(Container),
}

/// The mathematical form of a [`Type`].
pub enum SpecType {
    Base(Base),
    Array(Box<SpecType>),
    Struct(Seq<SpecType>),
    Dict(Base, Box<SpecType>),
    Variant,
}

impl Base {
    /// The character that stands for this type in a signature.
    pub open spec fn code(self) -> char {
        match self {
            Base::Byte => 'y',
            Base::Boolean => 'b',
            Base::Int16 => 'n',
            Base::Uint16 => 'q',
            Base::Int32 => 'i',
            Base::Uint32 => 'u',
            Base::Int64 => 'x',
            Base::Uint64 => 't',
            Base::Double => 'd',
            Base::String => 's',
            Base::ObjectPath => 'o',
            Base::Signature => 'g',
            Base::UnixFd => 'h',
        }
    }

    /// The alignment of a value of this type, in bytes.
    pub open spec fn alignment(self) -> nat {
        match self {
            Base::Byte | Base::Signature => 1,
            Base::Int16 | Base::Uint16 => 2,
            Base::Int32 | Base::Uint32 | Base::Boolean | Base::UnixFd | Base::String
            | Base::ObjectPath => 4,
            Base::Int64 | Base::Uint64 | Base::Double => 8,
        }
    }

    /// Whether every run of `alignment()` bytes is a value of this type.
    pub open spec fn fixed_width(self) -> bool {
        match self {
            Base::Byte | Base::Int16 | Base::Uint16 | Base::Int32 | Base::Uint32 | Base::Int64
            | Base::Uint64 | Base::Double | Base::UnixFd => true,
            Base::Boolean | Base::String | Base::ObjectPath | Base::Signature => false,
        }
    }

    pub fn get_alignment(self) -> (a: usize)
        ensures
            a == self.alignment(),
    {
        match self {
            Base::Byte | Base::Signature => 1,
            Base::Int16 | Base::Uint16 => 2,
            Base::Int32 | Base::Uint32 | Base::Boolean | Base::UnixFd | Base::String
            | Base::ObjectPath => 4,
            Base::Int64 | Base::Uint64 | Base::Double => 8,
        }
    }

    pub fn bytes_always_valid(self) -> (b: bool)
        ensures
            b == self.fixed_width(),
    {
        match self {
            Base::Byte | Base::Int16 | Base::Uint16 | Base::Int32 | Base::Uint32 | Base::Int64
            | Base::Uint64 | Base::Double | Base::UnixFd => true,
            Base::Boolean | Base::String | Base::ObjectPath | Base::Signature => false,
        }
    }

    /// Appends the character of this type to `buf`.
    pub fn to_str(self, buf: &mut String)
        ensures
            final(buf)@ == old(buf)@.push(self.code()),
    {
        proof {
            reveal_strlit("y");
            reveal_strlit("b");
            reveal_strlit("n");
            reveal_strlit("q");
            reveal_strlit("i");
            reveal_strlit("u");
            reveal_strlit("x");
            reveal_strlit("t");
            reveal_strlit("d");
            reveal_strlit("s");
            reveal_strlit("o");
            reveal_strlit("g");
            reveal_strlit("h");
        }
        let code = match self {
            Base::Byte => "y",
            Base::Boolean => "b",
            Base::Int16 => "n",
            Base::Uint16 => "q",
            Base::Int32 => "i",
            Base::Uint32 => "u",
            Base::Int64 => "x",
            Base::Uint64 => "t",
            Base::Double => "d",
            Base::String => "s",
            Base::ObjectPath => "o",
            Base::Signature => "g",
            Base::UnixFd => "h",
        };
        assert(code@ =~= seq![self.code()]);
        buf.append(code);
        assert(buf@ =~= old(buf)@.push(self.code()));
    }
}

/// The basic type that a signature character stands for, if any.
pub open spec fn base_of_code(c: char) -> Option<Base> {
    if c == 'y' {
        Some(Base::Byte)
    } else if c == 'b' {
        Some(Base::Boolean)
    } else if c == 'n' {
        Some(Base::Int16)
    } else if c == 'q' {
        Some(Base::Uint16)
    } else if c == 'i' {
        Some(Base::Int32)
    } else if c == 'u' {
        Some(Base::Uint32)
    } else if c == 'x' {
        Some(Base::Int64)
    } else if c == 't' {
        Some(Base::Uint64)
    } else if c == 'd' {
        Some(Base::Double)
    } else if c == 's' {
        Some(Base::String)
    } else if c == 'o' {
        Some(Base::ObjectPath)
    } else if c == 'g' {
        Some(Base::Signature)
    } else if c == 'h' {
        Some(Base::UnixFd)
    } else {
        None
    }
}

/// Whether `c` may occur in a signature at all.
pub open spec fn is_signature_char(c: char) -> bool {
    base_of_code(c) is Some || c == 'v' || c == 'a' || c == '(' || c == ')' || c == '{' || c
        == '}'
}

/// The text of a run of types, one after the other.
pub open spec fn types_text(ts: Seq<SpecType>) -> Seq<char>
    decreases ts,
{
    if ts.len() == 0 {
        Seq::empty()
    } else {
        types_text(ts.drop_last()) + ts.last().text()
    }
}

/// The deepest nesting among a run of types.
pub open spec fn types_depth(ts: Seq<SpecType>) -> nat
    decreases ts,
{
    if ts.len() == 0 {
        0
    } else {
        let d = types_depth(ts.drop_last());
        let l = ts.last().depth();
        if d >= l {
            d
        } else {
            l
        }
    }
}

/// Whether every type of the run is well formed.
pub open spec fn types_wf(ts: Seq<SpecType>) -> bool
    decreases ts,
{
    ts.len() == 0 || (types_wf(ts.drop_last()) && ts.last().wf())
}

impl SpecType {
    /// The alignment of a value of this type, in bytes.
    pub open spec fn alignment(self) -> nat {
        match self {
            SpecType::Base(b) => b.alignment(),
            SpecType::Array(_) => 4,
            SpecType::Dict(_, _) => 4,
            SpecType::Struct(_) => 8,
            SpecType::Variant => 1,
        }
    }

    /// Whether every run of `alignment()` bytes is a value of this type.
    pub open spec fn fixed_width(self) -> bool {
        match self {
            SpecType::Base(b) => b.fixed_width(),
            _ => false,
        }
    }

    /// The signature text of this type.
    pub open spec fn text(self) -> Seq<char>
        decreases self,
    {
        match self {
            SpecType::Base(b) => seq![b.code()],
            SpecType::Array(t) => seq!['a'] + t.text(),
            SpecType::Struct(ts) => seq!['('] + types_text(ts) + seq![')'],
            SpecType::Dict(k, v) => seq!['a', '{', k.code()] + v.text() + seq!['}'],
            SpecType::Variant => seq!['v'],
        }
    }

    /// How many containers are nested in this type, itself included.
    pub open spec fn depth(self) -> nat
        decreases self,
    {
        match self {
            SpecType::Base(_) => 0,
            SpecType::Array(t) => 1 + t.depth(),
            SpecType::Struct(ts) => 1 + types_depth(ts),
            SpecType::Dict(_, v) => 1 + v.depth(),
            SpecType::Variant => 0,
        }
    }

    /// Well formed: no struct without members anywhere in the tree.
    pub open spec fn wf(self) -> bool
        decreases self,
    {
        match self {
            SpecType::Base(_) => true,
            SpecType::Array(t) => t.wf(),
            SpecType::Struct(ts) => ts.len() > 0 && types_wf(ts),
            SpecType::Dict(_, v) => v.wf(),
            SpecType::Variant => true,
        }
    }
}

/// The mathematical form of the first `n` types of `ts`.
pub open spec fn types_model(ts: Seq<Type>, n: nat) -> Seq<SpecType>
    decreases ts, n,
{
    if n == 0 || n > ts.len() {
        Seq::empty()
    } else {
        types_model(ts, (n - 1) as nat).push(ts[n - 1].model())
    }
}

impl Container {
    pub open spec fn model(&self) -> SpecType
        decreases self,
    {
        match self {
            Container::Array(t) => SpecType::Array(Box::new(t.model())),
            Container::Struct(ts) => SpecType::Struct(types_model(ts.0@, ts.0@.len())),
            Container::Dict(k, v) => SpecType::Dict(*k, Box::new(v.model())),
            Container::Variant => SpecType::Variant,
        }
    }
}

impl Type {
    pub open spec fn model(&self) -> SpecType
        decreases self,
    {
        match self {
            Type::Base(b) => SpecType::Base(*b),
            Type::Container(c) => c.model(),
        }
    }
}

impl View for Type {
    type V = SpecType;

    open spec fn view(&self) -> SpecType {
        self.model()
    }
}

impl View for Container {
    type V = SpecType;

    open spec fn view(&self) -> SpecType {
        self.model()
    }
}

impl View for StructTypes {
    type V = Seq<SpecType>;

    open spec fn view(&self) -> Seq<SpecType> {
        types_model(self.0@, self.0@.len())
    }
}

/// What `types_model` holds: one model per type, in order.
pub proof fn lemma_types_model(ts: Seq<Type>, n: nat)
    requires
        n <= ts.len(),
    ensures
        types_model(ts, n).len() == n,
        forall|i: int| 0 <= i < n ==> (#[trigger] types_model(ts, n)[i]) == ts[i].model(),
    decreases n,
{
    if n > 0 {
        lemma_types_model(ts, (n - 1) as nat);
    }
}

/// `types_model` looks at the first `n` types only.
pub proof fn lemma_types_model_prefix(ts: Seq<Type>, us: Seq<Type>, n: nat)
    requires
        n <= ts.len(),
        n <= us.len(),
        forall|i: int| 0 <= i < n ==> ts[i].model() == us[i].model(),
    ensures
        types_model(ts, n) == types_model(us, n),
    decreases n,
{
    if n > 0 {
        lemma_types_model_prefix(ts, us, (n - 1) as nat);
    }
}

/// The text of a run grows by the text of a type pushed at its end.
pub proof fn lemma_types_text_push(ts: Seq<SpecType>, t: SpecType)
    ensures
        types_text(ts.push(t)) == types_text(ts) + t.text(),
        types_depth(ts.push(t)) == if types_depth(ts) >= t.depth() {
            types_depth(ts)
        } else {
            t.depth()
        },
        types_wf(ts.push(t)) == (types_wf(ts) && t.wf()),
{
    assert(ts.push(t).drop_last() =~= ts);
}

impl StructTypes {
    /// The member types of a struct; a struct has at least one member.
    pub fn new(types: Vec<Type>) -> (r: Result<StructTypes, Error>)
        ensures
            types@.len() == 0 ==> r == Err::<StructTypes, Error>(Error::EmptyStruct),
            types@.len() > 0 ==> r == Ok::<StructTypes, Error>(StructTypes(types)),
    {
        if types.len() == 0 {
            Err(Error::EmptyStruct)
        } else {
            Ok(StructTypes(types))
        }
    }

    pub fn as_ref(&self) -> (r: &[Type])
        ensures
            r@ == self.0@,
    {
        self.0.as_slice()
    }
}

impl Container {
    pub fn get_alignment(&self) -> (a: usize)
        ensures
            a == self@.alignment(),
    {
        match self {
            Container::Array(_) => 4,
            Container::Dict(_, _) => 4,
            Container::Struct(_) => 8,
            Container::Variant => 1,
        }
    }

    /// Appends the signature text of this type to `buf`.
    #[verifier::loop_isolation(false)]
    pub fn to_str(&self, buf: &mut String)
        ensures
            final(buf)@ == old(buf)@ + self@.text(),
        decreases self,
    {
        proof {
            reveal_strlit("a");
            reveal_strlit("(");
            reveal_strlit(")");
            reveal_strlit("a{");
            reveal_strlit("}");
            reveal_strlit("v");
        }
        match self {
            Container::Array(t) => {
                buf.append("a");
                t.to_str(buf);
                assert(buf@ =~= old(buf)@ + self@.text());
            },
            Container::Struct(ts) => {
                buf.append("(");
                let ghost start = buf@;
                let mut i: usize = 0;
                while i < ts.0.len()
                    invariant
                        i <= ts.0.len(),
                        buf@ == start + types_text(types_model(ts.0@, i as nat)),
                    decreases ts.0.len() - i,
                {
                    let t = &ts.0[i];
                    proof {
                        lemma_types_text_push(types_model(ts.0@, i as nat), t.model());
                    }
                    t.to_str(buf);
                    i += 1;
                }
                buf.append(")");
                assert(buf@ =~= old(buf)@ + self@.text());
            },
            Container::Dict(k, v) => {
                buf.append("a{");
                k.to_str(buf);
                v.to_str(buf);
                buf.append("}");
                assert(buf@ =~= old(buf)@ + self@.text());
            },
            Container::Variant => {
                buf.append("v");
                assert(buf@ =~= old(buf)@ + self@.text());
            },
        }
    }

    /// How many containers are nested in this type, itself included.
    #[verifier::loop_isolation(false)]
    pub fn depth(&self) -> (d: usize)
        ensures
            d == self@.depth() || (d == usize::MAX && self@.depth() >= usize::MAX),
        decreases self,
    {
        let inner = match self {
            Container::Array(t) => t.depth(),
            Container::Struct(ts) => {
                let mut deepest: usize = 0;
                let mut i: usize = 0;
                while i < ts.0.len()
                    invariant
                        i <= ts.0.len(),
                        deepest == types_depth(types_model(ts.0@, i as nat)) || (deepest
                            == usize::MAX && types_depth(types_model(ts.0@, i as nat))
                            >= usize::MAX),
                    decreases ts.0.len() - i,
                {
                    let t = &ts.0[i];
                    proof {
                        lemma_types_text_push(types_model(ts.0@, i as nat), t.model());
                    }
                    let d = t.depth();
                    if d > deepest {
                        deepest = d;
                    }
                    i += 1;
                }
                deepest
            },
            Container::Dict(_, v) => v.depth(),
            Container::Variant => {
                return 0;
            },
        };
        if inner == usize::MAX {
            usize::MAX
        } else {
            inner + 1
        }
    }

    /// Whether no struct in this type is without members.
    #[verifier::loop_isolation(false)]
    pub fn is_well_formed(&self) -> (b: bool)
        ensures
            b == self@.wf(),
        decreases self,
    {
        match self {
            Container::Array(t) => t.is_well_formed(),
            Container::Struct(ts) => {
                let mut i: usize = 0;
                while i < ts.0.len()
                    invariant
                        i <= ts.0.len(),
                        types_wf(types_model(ts.0@, i as nat)),
                    decreases ts.0.len() - i,
                {
                    let t = &ts.0[i];
                    proof {
                        lemma_types_text_push(types_model(ts.0@, i as nat), t.model());
                        lemma_types_model(ts.0@, ts.0@.len());
                        lemma_types_wf_index(types_model(ts.0@, ts.0@.len()), i as int);
                    }
                    if !t.is_well_formed() {
                        return false;
                    }
                    i += 1;
                }
                proof {
                    lemma_types_model(ts.0@, ts.0@.len());
                }
                ts.0.len() > 0
            },
            Container::Dict(_, v) => v.is_well_formed(),
            Container::Variant => true,
        }
    }

    /// Whether the two stand for the same type.
    #[verifier::loop_isolation(false)]
    pub fn same(&self, other: &Container) -> (b: bool)
        ensures
            b == (self@ == other@),
        decreases self,
    {
        match (self, other) {
            (Container::Array(a), Container::Array(b)) => a.same(b),
            (Container::Dict(ka, va), Container::Dict(kb, vb)) => *ka == *kb && va.same(vb),
            (Container::Variant, Container::Variant) => true,
            (Container::Struct(a), Container::Struct(b)) => {
                proof {
                    lemma_types_model(a.0@, a.0@.len());
                    lemma_types_model(b.0@, b.0@.len());
                }
                if a.0.len() != b.0.len() {
                    return false;
                }
                let mut i: usize = 0;
                while i < a.0.len()
                    invariant
                        i <= a.0.len(),
                        a.0.len() == b.0.len(),
                        forall|j: int| 0 <= j < i ==> a.0@[j].model() == b.0@[j].model(),
                    decreases a.0.len() - i,
                {
                    let x = &a.0[i];
                    let y = &b.0[i];
                    if !x.same(y) {
                        assert(a@[i as int] != b@[i as int]);
                        return false;
                    }
                    i += 1;
                }
                assert(a@ =~= b@);
                true
            },
            _ => false,
        }
    }

    /// A copy of this type.
    #[verifier::loop_isolation(false)]
    pub fn duplicate(&self) -> (r: Container)
        ensures
            r@ == self@,
        decreases self,
    {
        match self {
            Container::Array(t) => Container::Array(Box::new(t.duplicate())),
            Container::Dict(k, v) => Container::Dict(*k, Box::new(v.duplicate())),
            Container::Variant => Container::Variant,
            Container::Struct(ts) => {
                let mut out: Vec<Type> = Vec::new();
                let mut i: usize = 0;
                while i < ts.0.len()
                    invariant
                        i <= ts.0.len(),
                        out@.len() == i,
                        forall|j: int| 0 <= j < i ==> out@[j].model() == ts.0@[j].model(),
                    decreases ts.0.len() - i,
                {
                    let t = &ts.0[i];
                    out.push(t.duplicate());
                    i += 1;
                }
                proof {
                    lemma_types_model_prefix(out@, ts.0@, out@.len());
                }
                Container::Struct(StructTypes(out))
            },
        }
    }
}

/// A well-formed run has well-formed members.
pub proof fn lemma_types_wf_index(ts: Seq<SpecType>, i: int)
    requires
        0 <= i < ts.len(),
    ensures
        types_wf(ts) ==> ts[i].wf(),
        types_depth(ts) >= ts[i].depth(),
    decreases ts,
{
    if i < ts.len() - 1 {
        lemma_types_wf_index(ts.drop_last(), i);
    }
}

impl Type {
    pub fn get_alignment(&self) -> (a: usize)
        ensures
            a == self@.alignment(),
    {
        match self {
            Type::Base(b) => b.get_alignment(),
            Type::Container(c) => c.get_alignment(),
        }
    }

    /// True exactly for the fixed-width basic types whose every bit pattern
    /// is a value: `y n q i u x t d h`.
    pub fn bytes_always_valid(&self) -> (b: bool)
        ensures
            b == self@.fixed_width(),
    {
        match self {
            Type::Base(b) => b.bytes_always_valid(),
            Type::Container(_) => false,
        }
    }

    /// Appends the signature text of this type to `buf`.
    pub fn to_str(&self, buf: &mut String)
        ensures
            final(buf)@ == old(buf)@ + self@.text(),
        decreases self,
    {
        match self {
            Type::Base(b) => {
                b.to_str(buf);
                assert(buf@ =~= old(buf)@ + self@.text());
            },
            Type::Container(c) => c.to_str(buf),
        }
    }

    /// How many containers are nested in this type, itself included;
    /// `usize::MAX` stands for everything from there on.
    pub fn depth(&self) -> (d: usize)
        ensures
            d == self@.depth() || (d == usize::MAX && self@.depth() >= usize::MAX),
        decreases self,
    {
        match self {
            Type::Base(_) => 0,
            Type::Container(c) => c.depth(),
        }
    }

    /// Whether no struct in this type is without members.
    pub fn is_well_formed(&self) -> (b: bool)
        ensures
            b == self@.wf(),
        decreases self,
    {
        match self {
            Type::Base(_) => true,
            Type::Container(c) => c.is_well_formed(),
        }
    }

    /// Whether the two stand for the same type.
    pub fn same(&self, other: &Type) -> (b: bool)
        ensures
            b == (self@ == other@),
        decreases self,
    {
        match (self, other) {
            (Type::Base(a), Type::Base(b)) => *a == *b,
            (Type::Container(a), Type::Container(b)) => a.same(b),
            (Type::Base(_), Type::Container(c)) => {
                false
            },
            (Type::Container(c), Type::Base(_)) => {
                false
            },
        }
    }

    /// A copy of this type.
    pub fn duplicate(&self) -> (r: Type)
        ensures
            r@ == self@,
        decreases self,
    {
        match self {
            Type::Base(b) => Type::Base(*b),
            Type::Container(c) => Type::Container(c.duplicate()),
        }
    }
}

/// One complete type read from `s` at `pos`, below `depth` enclosing
/// containers: the type and the position after it.
pub open spec fn parse_one(s: Seq<char>, pos: int, depth: nat) -> Result<(SpecType, int), Error>
    decreases s.len() - pos, 0nat,
{
    if pos < 0 || pos >= s.len() {
        Err(Error::InvalidSignature)
    } else if base_of_code(s[pos]) is Some {
        Ok((SpecType::Base(base_of_code(s[pos])->0), pos + 1))
    } else if s[pos] == 'v' {
        Ok((SpecType::Variant, pos + 1))
    } else if s[pos] == 'a' {
        if depth >= MAX_NESTING_DEPTH {
            Err(Error::ExceedsMaxDepth)
        } else if pos + 1 < s.len() && s[pos + 1] == '{' {
            if pos + 2 >= s.len() || base_of_code(s[pos + 2]) is None {
                Err(Error::InvalidSignature)
            } else {
                match parse_one(s, pos + 3, depth + 1) {
                    Err(e) => Err(e),
                    Ok((v, next)) => if next < s.len() && s[next] == '}' {
                        Ok((SpecType::Dict(base_of_code(s[pos + 2])->0, Box::new(v)), next + 1))
                    } else {
                        Err(Error::InvalidSignature)
                    },
                }
            }
        } else {
            match parse_one(s, pos + 1, depth + 1) {
                Err(e) => Err(e),
                Ok((t, next)) => Ok((SpecType::Array(Box::new(t)), next)),
            }
        }
    } else if s[pos] == '(' {
        if depth >= MAX_NESTING_DEPTH {
            Err(Error::ExceedsMaxDepth)
        } else if pos + 1 < s.len() && s[pos + 1] == ')' {
            Err(Error::EmptyStruct)
        } else {
            match parse_members(s, pos + 1, depth + 1, Seq::empty()) {
                Err(e) => Err(e),
                Ok((ts, next)) => Ok((SpecType::Struct(ts), next)),
            }
        }
    } else {
        Err(Error::InvalidSignature)
    }
}

/// The members of a struct from `pos` up to its closing bracket, added to
/// `acc`, and the position after the bracket.
pub open spec fn parse_members(s: Seq<char>, pos: int, depth: nat, acc: Seq<SpecType>) -> Result<
    (Seq<SpecType>, int),
    Error,
>
    decreases s.len() - pos, 1nat,
{
    if pos < 0 || pos >= s.len() {
        Err(Error::InvalidSignature)
    } else if s[pos] == ')' {
        Ok((acc, pos + 1))
    } else {
        match parse_one(s, pos, depth) {
            Err(e) => Err(e),
            Ok((t, next)) => if next <= pos || next > s.len() {
                Err(Error::InvalidSignature)
            } else {
                parse_members(s, next, depth, acc.push(t))
            },
        }
    }
}

/// The complete types from `pos` to the end of `s`, added to `acc`.
pub open spec fn parse_all(s: Seq<char>, pos: int, acc: Seq<SpecType>) -> Result<
    Seq<SpecType>,
    Error,
>
    decreases s.len() - pos,
{
    if pos < 0 || pos >= s.len() {
        Ok(acc)
    } else {
        match parse_one(s, pos, 0) {
            Err(e) => Err(e),
            Ok((t, next)) => if next <= pos || next > s.len() {
                Err(Error::InvalidSignature)
            } else {
                parse_all(s, next, acc.push(t))
            },
        }
    }
}

/// Whether `s` holds signature characters only.
pub open spec fn all_signature_chars(s: Seq<char>) -> bool {
    forall|i: int| 0 <= i < s.len() ==> is_signature_char(#[trigger] s[i])
}

/// What a text means as a signature: its types in order, or the first
/// reason why it is none. Length is judged first, then the alphabet, then
/// the structure from left to right.
pub open spec fn parse_description_spec(s: Seq<char>) -> Result<Seq<SpecType>, Error> {
    if s.len() > MAX_SIGNATURE_LEN {
        Err(Error::TooLong)
    } else if !all_signature_chars(s) {
        Err(Error::InvalidSignature)
    } else {
        parse_all(s, 0, Seq::empty())
    }
}

/// A type that parses ends after where it starts, within the text, and is well formed.
pub proof fn lemma_parse_one_advances(s: Seq<char>, pos: int, depth: nat)
    requires
        depth <= MAX_NESTING_DEPTH,
    ensures
        parse_one(s, pos, depth) matches Ok((t, next)) ==> pos < next <= s.len() && t.wf()
            && t.depth() + depth <= MAX_NESTING_DEPTH,
    decreases s.len() - pos, 0nat,
{
    if pos < 0 || pos >= s.len() {
    } else if base_of_code(s[pos]) is Some {
    } else if s[pos] == 'v' {
    } else if s[pos] == 'a' {
        if depth >= MAX_NESTING_DEPTH {
        } else if pos + 1 < s.len() && s[pos + 1] == '{' {
            if pos + 2 >= s.len() || base_of_code(s[pos + 2]) is None {
            } else {
                lemma_parse_one_advances(s, pos + 3, depth + 1);
            }
        } else {
            lemma_parse_one_advances(s, pos + 1, depth + 1);
        }
    } else if s[pos] == '(' {
        if depth >= MAX_NESTING_DEPTH {
        } else if pos + 1 < s.len() && s[pos + 1] == ')' {
        } else {
            lemma_parse_members_advances(s, pos + 1, depth + 1, Seq::empty());
        }
    }
}

/// The members of a struct that parses end within the text, are well
/// formed, and are at least one where the list does not start at the bracket.
pub proof fn lemma_parse_members_advances(s: Seq<char>, pos: int, depth: nat, acc: Seq<SpecType>)
    requires
        types_wf(acc),
        types_depth(acc) + depth <= MAX_NESTING_DEPTH,
    ensures
        parse_members(s, pos, depth, acc) matches Ok((ts, next)) ==> pos < next <= s.len()
            && types_wf(ts) && types_depth(ts) + depth <= MAX_NESTING_DEPTH && ts.len()
            >= acc.len() && (s[pos] != ')' ==> ts.len() > acc.len()),
    decreases s.len() - pos, 1nat,
{
    if pos < 0 || pos >= s.len() {
    } else if s[pos] == ')' {
    } else {
        lemma_parse_one_advances(s, pos, depth);
        match parse_one(s, pos, depth) {
            Err(e) => {},
            Ok((t, next)) => {
                if next > pos {
                    lemma_types_text_push(acc, t);
                    lemma_parse_members_advances(s, next, depth, acc.push(t));
                }
            },
        }
    }
}

/// Whether `bytes` are the characters of `s`, all of them ASCII.
pub open spec fn ascii_of(bytes: Seq<u8>, s: Seq<char>) -> bool {
    &&& bytes.len() == s.len()
    &&& forall|i: int|
        0 <= i < s.len() ==> bytes[i] < 128 && (#[trigger] s[i]) == bytes[i] as char
}

fn base_of_byte(b: u8, Ghost(c): Ghost<char>) -> (r: Option<Base>)
    requires
        c == b as char,
    ensures
        r == base_of_code(c),
{
    if b == 121 {
        Some(Base::Byte)
    } else if b == 98 {
        Some(Base::Boolean)
    } else if b == 110 {
        Some(Base::Int16)
    } else if b == 113 {
        Some(Base::Uint16)
    } else if b == 105 {
        Some(Base::Int32)
    } else if b == 117 {
        Some(Base::Uint32)
    } else if b == 120 {
        Some(Base::Int64)
    } else if b == 116 {
        Some(Base::Uint64)
    } else if b == 100 {
        Some(Base::Double)
    } else if b == 115 {
        Some(Base::String)
    } else if b == 111 {
        Some(Base::ObjectPath)
    } else if b == 103 {
        Some(Base::Signature)
    } else if b == 104 {
        Some(Base::UnixFd)
    } else {
        None
    }
}

fn parse_one_at(bytes: &[u8], pos: usize, depth: usize, Ghost(s): Ghost<Seq<char>>) -> (r: Result<
    (Type, usize),
    Error,
>)
    requires
        ascii_of(bytes@, s),
        depth <= MAX_NESTING_DEPTH,
    ensures
        match r {
            Ok((t, next)) => parse_one(s, pos as int, depth as nat) == Ok::<(SpecType, int), Error>(
                (t@, next as int),
            ),
            Err(e) => parse_one(s, pos as int, depth as nat) == Err::<(SpecType, int), Error>(e),
        },
    decreases bytes@.len() - pos, 0nat,
{
    if pos >= bytes.len() {
        return Err(Error::InvalidSignature);
    }
    let c = bytes[pos];
    if let Some(b) = base_of_byte(c, Ghost(s[pos as int])) {
        return Ok((Type::Base(b), pos + 1));
    }
    if c == 118 {
        Ok((Type::Container(Container::Variant), pos + 1))
    } else if c == 97 {
        if depth >= MAX_NESTING_DEPTH {
            Err(Error::ExceedsMaxDepth)
        } else if pos + 1 < bytes.len() && bytes[pos + 1] == 123 {
            if pos + 2 >= bytes.len() {
                return Err(Error::InvalidSignature);
            }
            match base_of_byte(bytes[pos + 2], Ghost(s[pos + 2])) {
                None => Err(Error::InvalidSignature),
                Some(k) => {
                    let (v, next) = parse_one_at(bytes, pos + 3, depth + 1, Ghost(s))?;
                    proof {
                        lemma_parse_one_advances(s, pos + 3, (depth + 1) as nat);
                    }
                    if next < bytes.len() && bytes[next] == 125 {
                        Ok((Type::Container(Container::Dict(k, Box::new(v))), next + 1))
                    } else {
                        Err(Error::InvalidSignature)
                    }
                },
            }
        } else {
            let (t, next) = parse_one_at(bytes, pos + 1, depth + 1, Ghost(s))?;
            Ok((Type::Container(Container::Array(Box::new(t))), next))
        }
    } else if c == 40 {
        if depth >= MAX_NESTING_DEPTH {
            Err(Error::ExceedsMaxDepth)
        } else if pos + 1 < bytes.len() && bytes[pos + 1] == 41 {
            Err(Error::EmptyStruct)
        } else {
            let members: Vec<Type> = Vec::new();
            let (ts, next) = parse_members_at(bytes, pos + 1, depth + 1, members, Ghost(s))?;
            Ok((Type::Container(Container::Struct(StructTypes(ts))), next))
        }
    } else {
        Err(Error::InvalidSignature)
    }
}

fn parse_members_at(
    bytes: &[u8],
    pos: usize,
    depth: usize,
    acc: Vec<Type>,
    Ghost(s): Ghost<Seq<char>>,
) -> (r: Result<(Vec<Type>, usize), Error>)
    requires
        ascii_of(bytes@, s),
        depth <= MAX_NESTING_DEPTH,
    ensures
        match r {
            Ok((ts, next)) => parse_members(
                s,
                pos as int,
                depth as nat,
                types_model(acc@, acc@.len()),
            ) == Ok::<(Seq<SpecType>, int), Error>(
                (types_model(ts@, ts@.len()), next as int),
            ),
            Err(e) => parse_members(s, pos as int, depth as nat, types_model(acc@, acc@.len()))
                == Err::<(Seq<SpecType>, int), Error>(e),
        },
    decreases bytes@.len() - pos, 1nat,
{
    if pos >= bytes.len() {
        return Err(Error::InvalidSignature);
    }
    if bytes[pos] == 41 {
        return Ok((acc, pos + 1));
    }
    let (t, next) = parse_one_at(bytes, pos, depth, Ghost(s))?;
    proof {
        lemma_parse_one_advances(s, pos as int, depth as nat);
        lemma_types_model_prefix(acc@, acc@.push(t), acc@.len());
    }
    let mut acc = acc;
    acc.push(t);
    parse_members_at(bytes, next, depth, acc, Ghost(s))
}

/// The bytes of `sig` where it is ASCII, one byte for each character.
pub fn ascii_bytes(sig: &str) -> (r: Option<&[u8]>)
    ensures
        r is Some <==> is_ascii_chars(sig@),
        r matches Some(b) ==> ascii_of(b@, sig@),
{
    if sig.is_ascii() {
        let bytes = sig.as_bytes();
        proof {
            is_ascii_chars_encode_utf8(sig@);
            assert forall|i: int| 0 <= i < sig@.len() implies bytes@[i] < 128 && (
            #[trigger] sig@[i]) == bytes@[i] as char by {
                vstd::utf8::char_u32_cast(sig@[i], sig@[i] as u32);
            }
        }
        Some(bytes)
    } else {
        None
    }
}

fn is_signature_byte(b: u8, Ghost(c): Ghost<char>) -> (r: bool)
    requires
        c == b as char,
    ensures
        r == is_signature_char(c),
{
    base_of_byte(b, Ghost(c)).is_some() || b == 118 || b == 97 || b == 40 || b == 41 || b == 123
        || b == 125
}

pub(crate) fn all_signature_chars_of(bytes: &[u8], Ghost(s): Ghost<Seq<char>>) -> (r: bool)
    requires
        ascii_of(bytes@, s),
    ensures
        r == all_signature_chars(s),
{
    let mut i: usize = 0;
    while i < bytes.len()
        invariant
            i <= bytes.len(),
            ascii_of(bytes@, s),
            forall|j: int| 0 <= j < i ==> is_signature_char(#[trigger] s[j]),
        decreases bytes.len() - i,
    {
        if !is_signature_byte(bytes[i], Ghost(s[i as int])) {
            return false;
        }
        i += 1;
    }
    true
}

impl Type {
    /// Reads a signature text: its complete types in order, or the reason
    /// why the text is no signature.
    pub fn parse_description(sig: &str) -> (r: Result<Vec<Type>, Error>)
        ensures
            match r {
                Ok(ts) => parse_description_spec(sig@) == Ok::<Seq<SpecType>, Error>(
                    types_model(ts@, ts@.len()),
                ),
                Err(e) => parse_description_spec(sig@) == Err::<Seq<SpecType>, Error>(e),
            },
            r matches Ok(ts) ==> types_wf(types_model(ts@, ts@.len())) && forall|i: int|
                0 <= i < ts@.len() ==> (#[trigger] ts@[i])@.wf() && ts@[i]@.depth()
                    <= MAX_NESTING_DEPTH,
    {
        proof {
            lemma_parse_description_wf(sig@);
        }
        if sig.unicode_len() > MAX_SIGNATURE_LEN {
            return Err(Error::TooLong);
        }
        let bytes = match ascii_bytes(sig) {
            Some(b) => b,
            None => {
                proof {
                    let i = choose|i: int|
                        0 <= i < sig@.len() && !('\0' <= #[trigger] sig@[i] <= '\u{7f}');
                    assert(!is_signature_char(sig@[i]));
                }
                return Err(Error::InvalidSignature);
            },
        };
        if !all_signature_chars_of(bytes, Ghost(sig@)) {
            return Err(Error::InvalidSignature);
        }
        let mut types: Vec<Type> = Vec::new();
        let mut pos: usize = 0;
        while pos < bytes.len()
            invariant
                ascii_of(bytes@, sig@),
                sig@.len() <= MAX_SIGNATURE_LEN,
                all_signature_chars(sig@),
                parse_all(sig@, 0, Seq::empty()) == parse_all(
                    sig@,
                    pos as int,
                    types_model(types@, types@.len()),
                ),
            decreases bytes.len() - pos,
        {
            let (t, next) = parse_one_at(bytes, pos, 0, Ghost(sig@))?;
            proof {
                lemma_parse_one_advances(sig@, pos as int, 0);
                lemma_types_model_prefix(types@, types@.push(t), types@.len());
            }
            types.push(t);
            pos = next;
        }
        proof {
            let ts = types_model(types@, types@.len());
            lemma_types_model(types@, types@.len());
            lemma_parse_description_wf(sig@);
            assert forall|i: int| 0 <= i < types@.len() implies (#[trigger] types@[i])@.wf()
                && types@[i]@.depth() <= MAX_NESTING_DEPTH by {
                assert(ts[i] == types@[i].model());
            }
        }
        Ok(types)
    }
}

/// Where the complete type that starts at `pos` ends, if there is one. A
/// text with a character outside ASCII holds no type at all.
pub open spec fn token_end(s: Seq<char>, pos: int) -> Option<int> {
    if !is_ascii_chars(s) {
        None
    } else {
        match parse_one(s, pos, 0) {
            Ok((_, next)) => Some(next),
            Err(_) => None,
        }
    }
}

/// How many complete types follow one another from `pos` on.
pub open spec fn tokens_left(s: Seq<char>, pos: int) -> nat
    decreases s.len() - pos,
{
    match token_end(s, pos) {
        Some(next) => if pos < next <= s.len() {
            1 + tokens_left(s, next)
        } else {
            0
        },
        None => 0,
    }
}

/// Walks over the complete types of a signature text, one at a time.
pub struct SignatureIter<'a> {
    sig: &'a str,
    pos: usize,
}

impl<'a> SignatureIter<'a> {
    /// The text that is walked over.
    pub closed spec fn text(&self) -> Seq<char> {
        self.sig@
    }

    /// The position of the next type in the text.
    pub closed spec fn position(&self) -> int {
        self.pos as int
    }

    pub fn new(sig: &'a str) -> (r: Self)
        ensures
            r.text() == sig@,
            r.position() == 0,
    {
        SignatureIter { sig, pos: 0 }
    }

    pub fn new_at_idx(sig: &'a str, idx: usize) -> (r: Self)
        ensures
            r.text() == sig@,
            r.position() == idx,
    {
        SignatureIter { sig, pos: idx }
    }

    /// The text of the next complete type, if one starts here; the walk
    /// then stands behind it.
    pub fn next(&mut self) -> (r: Option<&'a str>)
        ensures
            final(self).text() == old(self).text(),
            match token_end(old(self).text(), old(self).position()) {
                Some(end) => r matches Some(t) && t@ == old(self).text().subrange(
                    old(self).position(),
                    end,
                ) && final(self).position() == end && old(self).position() < end <= old(
                    self,
                ).text().len(),
                None => r is None && final(self).position() == old(self).position(),
            },
    {
        let bytes = match ascii_bytes(self.sig) {
            Some(b) => b,
            None => {
                return None;
            },
        };
        match parse_one_at(bytes, self.pos, 0, Ghost(self.sig@)) {
            Ok((_, next)) => {
                proof {
                    lemma_parse_one_advances(self.sig@, self.pos as int, 0);
                }
                let token = self.sig.substring_ascii(self.pos, next);
                self.pos = next;
                Some(token)
            },
            Err(_) => None,
        }
    }

    /// The position of the next type in the text.
    pub fn pos(&self) -> (r: usize)
        ensures
            r == self.position(),
    {
        self.pos
    }

    /// The next complete type, if one starts here; the walk then stands
    /// behind it.
    pub fn next_type(&mut self) -> (r: Option<Type>)
        ensures
            final(self).text() == old(self).text(),
            match token_end(old(self).text(), old(self).position()) {
                Some(end) => r matches Some(t) && parse_one(
                    old(self).text(),
                    old(self).position(),
                    0,
                ) == Ok::<(SpecType, int), Error>((t@, end)) && t@.wf() && final(self).position()
                    == end && old(self).position() < end <= old(self).text().len(),
                None => r is None && final(self).position() == old(self).position(),
            },
    {
        let bytes = match ascii_bytes(self.sig) {
            Some(b) => b,
            None => {
                return None;
            },
        };
        match parse_one_at(bytes, self.pos, 0, Ghost(self.sig@)) {
            Ok((t, next)) => {
                proof {
                    lemma_parse_one_advances(self.sig@, self.pos as int, 0);
                }
                self.pos = next;
                Some(t)
            },
            Err(_) => None,
        }
    }

    /// How many complete types follow one another from here on.
    pub fn count(self) -> (n: usize)
        ensures
            n == tokens_left(self.text(), self.position()),
    {
        let bytes = match ascii_bytes(self.sig) {
            Some(b) => b,
            None => {
                return 0;
            },
        };
        let mut pos = self.pos;
        let mut n: usize = 0;
        while pos < bytes.len()
            invariant
                ascii_of(bytes@, self.sig@),
                is_ascii_chars(self.sig@),
                n <= pos,
                tokens_left(self.sig@, self.pos as int) == n + tokens_left(self.sig@, pos as int),
            decreases bytes.len() - pos,
        {
            match parse_one_at(bytes, pos, 0, Ghost(self.sig@)) {
                Ok((_, next)) => {
                    proof {
                        lemma_parse_one_advances(self.sig@, pos as int, 0);
                    }
                    n += 1;
                    pos = next;
                },
                Err(_) => {
                    return n;
                },
            }
        }
        n
    }
}

/// The types of a run that parses are well formed and nest no deeper than allowed.
pub proof fn lemma_parse_all_wf(s: Seq<char>, pos: int, acc: Seq<SpecType>)
    requires
        types_wf(acc),
        types_depth(acc) <= MAX_NESTING_DEPTH,
    ensures
        parse_all(s, pos, acc) matches Ok(ts) ==> types_wf(ts) && types_depth(ts)
            <= MAX_NESTING_DEPTH,
    decreases s.len() - pos,
{
    if 0 <= pos < s.len() {
        lemma_parse_one_advances(s, pos, 0);
        match parse_one(s, pos, 0) {
            Err(e) => {},
            Ok((t, next)) => {
                if pos < next <= s.len() {
                    lemma_types_text_push(acc, t);
                    lemma_parse_all_wf(s, next, acc.push(t));
                }
            },
        }
    }
}

/// Every type of a signature is well formed and nests no deeper than allowed.
pub proof fn lemma_parse_description_wf(s: Seq<char>)
    ensures
        parse_description_spec(s) matches Ok(ts) ==> types_wf(ts) && types_depth(ts)
            <= MAX_NESTING_DEPTH && forall|i: int|
            0 <= i < ts.len() ==> (#[trigger] ts[i]).wf() && ts[i].depth() <= MAX_NESTING_DEPTH,
{
    lemma_parse_all_wf(s, 0, Seq::empty());
    if let Ok(ts) = parse_description_spec(s) {
        assert forall|i: int| 0 <= i < ts.len() implies (#[trigger] ts[i]).wf() && ts[i].depth()
            <= MAX_NESTING_DEPTH by {
            lemma_types_wf_index(ts, i);
        }
    }
}

/// The text of a type holds signature characters only, and at least one.
pub proof fn lemma_text_chars(t: SpecType)
    ensures
        all_signature_chars(t.text()),
        is_ascii_chars(t.text()),
        t.text().len() >= 1,
    decreases t,
{
    match t {
        SpecType::Base(b) => {},
        SpecType::Array(e) => {
            lemma_text_chars(*e);
        },
        SpecType::Struct(ts) => {
            lemma_types_text_chars(ts);
        },
        SpecType::Dict(k, v) => {
            lemma_text_chars(*v);
        },
        SpecType::Variant => {},
    }
}

/// The text of a run of types holds signature characters only.
pub proof fn lemma_types_text_chars(ts: Seq<SpecType>)
    ensures
        all_signature_chars(types_text(ts)),
        is_ascii_chars(types_text(ts)),
    decreases ts,
{
    if ts.len() > 0 {
        lemma_types_text_chars(ts.drop_last());
        lemma_text_chars(ts.last());
    }
}

/// The length of the text of a run of types is the sum of the lengths of their texts.
pub proof fn lemma_types_text_len(ts: Seq<SpecType>, n: nat)
    requires
        n < ts.len(),
    ensures
        types_text(ts.take(n + 1 as int)).len() == types_text(ts.take(n as int)).len()
            + ts[n as int].text().len(),
{
    assert(ts.take(n + 1 as int).drop_last() =~= ts.take(n as int));
}

impl Type {
    /// The number of characters of the signature text of this type;
    /// `usize::MAX` stands for everything from there on.
    pub fn text_len(&self) -> (n: usize)
        ensures
            n == self@.text().len() || (n == usize::MAX && self@.text().len() >= usize::MAX),
        decreases self,
    {
        match self {
            Type::Base(_) => 1,
            Type::Container(c) => c.text_len(),
        }
    }
}

/// The sum of two counts where `usize::MAX` stands for everything from there on.
fn capped_sum(a: usize, b: usize) -> (r: usize)
    ensures
        a + b < usize::MAX ==> r == a + b,
        a + b >= usize::MAX ==> r == usize::MAX,
{
    if a > usize::MAX - b {
        usize::MAX
    } else {
        a + b
    }
}

impl Container {
    /// The number of characters of the signature text of this type;
    /// `usize::MAX` stands for everything from there on.
    #[verifier::loop_isolation(false)]
    pub fn text_len(&self) -> (n: usize)
        ensures
            n == self@.text().len() || (n == usize::MAX && self@.text().len() >= usize::MAX),
        decreases self,
    {
        match self {
            Container::Array(t) => capped_sum(1, t.text_len()),
            Container::Dict(_, v) => capped_sum(4, v.text_len()),
            Container::Variant => 1,
            Container::Struct(ts) => {
                let ghost members = types_model(ts.0@, ts.0@.len());
                proof {
                    lemma_types_model(ts.0@, ts.0@.len());
                    assert(members.take(0) =~= Seq::<SpecType>::empty());
                }
                let mut total: usize = 2;
                let mut i: usize = 0;
                while i < ts.0.len()
                    invariant
                        i <= ts.0.len(),
                        total == 2 + types_text(members.take(i as int)).len() || (total
                            == usize::MAX && 2 + types_text(members.take(i as int)).len()
                            >= usize::MAX),
                    decreases ts.0.len() - i,
                {
                    let t = &ts.0[i];
                    proof {
                        lemma_types_text_len(members, i as nat);
                    }
                    total = capped_sum(total, t.text_len());
                    i += 1;
                }
                assert(members.take(ts.0@.len() as int) =~= members);
                total
            },
        }
    }
}

/// The text of a type begins with a character that opens a type.
pub proof fn lemma_text_first(t: SpecType)
    ensures
        t.text().len() >= 1,
        t.text()[0] != ')' && t.text()[0] != '{' && t.text()[0] != '}',
{
}

/// The text of a run of types begins as the text of its first type does.
pub proof fn lemma_types_text_first(ts: Seq<SpecType>)
    requires
        ts.len() > 0,
    ensures
        types_text(ts).len() >= 1,
        types_text(ts)[0] != ')' && types_text(ts)[0] != '{' && types_text(ts)[0] != '}',
    decreases ts,
{
    lemma_text_first(ts.last());
    if ts.len() > 1 {
        lemma_types_text_first(ts.drop_last());
    } else {
        assert(types_text(ts.drop_last()) =~= Seq::<char>::empty());
    }
}

/// A part of a text that stands in another stands in that other too.
pub proof fn lemma_part_of_text(
    s: Seq<char>,
    pos: int,
    whole: Seq<char>,
    from: int,
    part: Seq<char>,
)
    requires
        0 <= pos,
        pos + whole.len() <= s.len(),
        s.subrange(pos, pos + whole.len()) == whole,
        0 <= from,
        from + part.len() <= whole.len(),
        whole.subrange(from, from + part.len()) == part,
    ensures
        s.subrange(pos + from, pos + from + part.len()) == part,
        forall|i: int| 0 <= i < whole.len() ==> s[pos + i] == #[trigger] whole[i],
{
    assert forall|i: int| 0 <= i < whole.len() implies s[pos + i] == #[trigger] whole[i] by {
        assert(s.subrange(pos, pos + whole.len())[i] == s[pos + i]);
    }
    assert forall|i: int| 0 <= i < part.len() implies s.subrange(
        pos + from,
        pos + from + part.len(),
    )[i] == part[i] by {
        assert(whole.subrange(from, from + part.len())[i] == whole[from + i]);
    }
    assert(s.subrange(pos + from, pos + from + part.len()) =~= part);
}

/// Reading the text of a type gives the type back: where the text of `t`
/// stands in `s` at `pos`, and `t` may stand below `depth` containers,
/// one type is read there, and it is `t`.
pub proof fn lemma_parse_text(s: Seq<char>, pos: int, depth: nat, t: SpecType)
    requires
        0 <= pos,
        pos + t.text().len() <= s.len(),
        s.subrange(pos, pos + t.text().len()) == t.text(),
        t.wf(),
        t.depth() + depth <= MAX_NESTING_DEPTH,
    ensures
        parse_one(s, pos, depth) == Ok::<(SpecType, int), Error>((t, pos + t.text().len())),
    decreases t,
{
    let text = t.text();
    lemma_part_of_text(s, pos, text, 0, text.subrange(0, 0));
    assert(s[pos] == text[0]);
    match t {
        SpecType::Base(b) => {},
        SpecType::Variant => {},
        SpecType::Array(e) => {
            lemma_text_first(*e);
            assert(text.subrange(1, 1 + e.text().len() as int) =~= e.text());
            lemma_part_of_text(s, pos, text, 1, e.text());
            assert(s[pos + 1] == text[1]);
            assert(text[1] == e.text()[0]);
            lemma_parse_text(s, pos + 1, depth + 1, *e);
        },
        SpecType::Dict(k, v) => {
            assert(text.subrange(3, 3 + v.text().len() as int) =~= v.text());
            lemma_part_of_text(s, pos, text, 3, v.text());
            assert(s[pos + 1] == text[1]);
            assert(s[pos + 2] == text[2]);
            assert(s[pos + 3 + v.text().len()] == text[3 + v.text().len() as int]);
            lemma_parse_text(s, pos + 3, depth + 1, *v);
        },
        SpecType::Struct(ts) => {
            let inner = types_text(ts);
            lemma_types_text_first(ts);
            assert(text.subrange(1, 1 + inner.len() as int) =~= inner);
            lemma_part_of_text(s, pos, text, 1, inner);
            assert(s[pos + 1] == text[1]);
            assert(text[1] == inner[0]);
            assert(s[pos + 1 + inner.len()] == text[1 + inner.len() as int]);
            lemma_parse_members_text(s, pos + 1, depth + 1, Seq::empty(), ts);
            assert(Seq::<SpecType>::empty() + ts =~= ts);
        },
    }
}

/// Reading the members of a struct gives them back: where the text of
/// the types `ts` stands in `s` at `start`, reading members from there on
/// is reading them from behind that text on, with `ts` read already.
pub proof fn lemma_parse_members_text(
    s: Seq<char>,
    start: int,
    depth: nat,
    acc: Seq<SpecType>,
    ts: Seq<SpecType>,
)
    requires
        0 <= start,
        start + types_text(ts).len() <= s.len(),
        s.subrange(start, start + types_text(ts).len()) == types_text(ts),
        types_wf(ts),
        types_depth(ts) + depth <= MAX_NESTING_DEPTH,
    ensures
        parse_members(s, start, depth, acc) == parse_members(
            s,
            start + types_text(ts).len(),
            depth,
            acc + ts,
        ),
    decreases ts,
{
    if ts.len() == 0 {
        assert(acc + ts =~= acc);
    } else {
        let front = ts.drop_last();
        let t = ts.last();
        let text = types_text(ts);
        let p = start + types_text(front).len();
        lemma_text_first(t);
        assert(text.subrange(0, types_text(front).len() as int) =~= types_text(front));
        lemma_part_of_text(s, start, text, 0, types_text(front));
        assert(text.subrange(types_text(front).len() as int, text.len() as int) =~= t.text());
        lemma_part_of_text(s, start, text, types_text(front).len() as int, t.text());
        lemma_types_wf_index(ts, ts.len() - 1);
        lemma_parse_members_text(s, start, depth, acc, front);
        assert(s[p] == text[types_text(front).len() as int]);
        assert(s[p] == t.text()[0]);
        lemma_parse_text(s, p, depth, t);
        lemma_parse_one_advances(s, p, depth);
        assert((acc + front).push(t) =~= acc + ts);
    }
}

/// Reading the text of types gives them back: where the text of the
/// types `ts` stands in `s` at `start`, reading types from there on is
/// reading them from behind that text on, with `ts` read already.
pub proof fn lemma_parse_all_of_text(s: Seq<char>, start: int, acc: Seq<SpecType>, ts: Seq<SpecType>)
    requires
        0 <= start,
        start + types_text(ts).len() <= s.len(),
        s.subrange(start, start + types_text(ts).len()) == types_text(ts),
        types_wf(ts),
        types_depth(ts) <= MAX_NESTING_DEPTH,
    ensures
        parse_all(s, start, acc) == parse_all(s, start + types_text(ts).len(), acc + ts),
    decreases ts,
{
    if ts.len() == 0 {
        assert(acc + ts =~= acc);
    } else {
        let front = ts.drop_last();
        let t = ts.last();
        let text = types_text(ts);
        let p = start + types_text(front).len();
        lemma_text_first(t);
        assert(text.subrange(0, types_text(front).len() as int) =~= types_text(front));
        lemma_part_of_text(s, start, text, 0, types_text(front));
        assert(text.subrange(types_text(front).len() as int, text.len() as int) =~= t.text());
        lemma_part_of_text(s, start, text, types_text(front).len() as int, t.text());
        lemma_types_wf_index(ts, ts.len() - 1);
        lemma_parse_all_of_text(s, start, acc, front);
        lemma_parse_text(s, p, 0, t);
        lemma_parse_one_advances(s, p, 0);
        assert((acc + front).push(t) =~= acc + ts);
    }
}

/// A type that is read was written there: the text between where it
/// starts and where it ends is its text.
pub proof fn lemma_parse_one_text(s: Seq<char>, pos: int, depth: nat)
    requires
        depth <= MAX_NESTING_DEPTH,
    ensures
        parse_one(s, pos, depth) matches Ok((t, next)) ==> 0 <= pos < next <= s.len()
            && s.subrange(pos, next) == t.text(),
    decreases s.len() - pos, 0nat,
{
    lemma_parse_one_advances(s, pos, depth);
    if let Ok((t, next)) = parse_one(s, pos, depth) {
        if base_of_code(s[pos]) is Some {
            assert(s.subrange(pos, next) =~= t.text());
        } else if s[pos] == 'v' {
            assert(s.subrange(pos, next) =~= t.text());
        } else if s[pos] == 'a' {
            if pos + 1 < s.len() && s[pos + 1] == '{' {
                lemma_parse_one_text(s, pos + 3, depth + 1);
                let (v, end) = parse_one(s, pos + 3, depth + 1)->Ok_0;
                assert(s.subrange(pos, next) =~= seq!['a', '{', s[pos + 2]] + s.subrange(
                    pos + 3,
                    end,
                ) + seq!['}']);
            } else {
                lemma_parse_one_text(s, pos + 1, depth + 1);
                assert(s.subrange(pos, next) =~= seq!['a'] + s.subrange(pos + 1, next));
            }
        } else {
            lemma_parse_members_are_text(s, pos + 1, depth + 1, Seq::empty());
            assert(types_text(Seq::<SpecType>::empty()) =~= Seq::<char>::empty());
            assert(s.subrange(pos, next) =~= seq!['('] + s.subrange(pos + 1, next - 1)
                + seq![')']);
        }
    }
}

/// The members of a struct that are read were written there: their text
/// is the text from where they start to the closing bracket.
pub proof fn lemma_parse_members_are_text(s: Seq<char>, pos: int, depth: nat, acc: Seq<SpecType>)
    requires
        depth <= MAX_NESTING_DEPTH,
    ensures
        parse_members(s, pos, depth, acc) matches Ok((ts, next)) ==> 0 <= pos < next <= s.len()
            && s[next - 1] == ')' && types_text(ts) == types_text(acc) + s.subrange(
            pos,
            next - 1,
        ),
    decreases s.len() - pos, 1nat,
{
    if let Ok((ts, next)) = parse_members(s, pos, depth, acc) {
        if s[pos] == ')' {
            assert(types_text(acc) + s.subrange(pos, next - 1) =~= types_text(acc));
        } else {
            lemma_parse_one_text(s, pos, depth);
            let (t, mid) = parse_one(s, pos, depth)->Ok_0;
            lemma_parse_members_are_text(s, mid, depth, acc.push(t));
            lemma_types_text_push(acc, t);
            assert(types_text(acc) + s.subrange(pos, mid) + s.subrange(mid, next - 1)
                =~= types_text(acc) + s.subrange(pos, next - 1));
        }
    }
}

/// The types that are read were written there: their text is the text
/// from where they start to the end.
pub proof fn lemma_parse_all_are_text(s: Seq<char>, pos: int, acc: Seq<SpecType>)
    requires
        0 <= pos <= s.len(),
    ensures
        parse_all(s, pos, acc) matches Ok(ts) ==> types_text(ts) == types_text(acc) + s.subrange(
            pos,
            s.len() as int,
        ),
    decreases s.len() - pos,
{
    if let Ok(ts) = parse_all(s, pos, acc) {
        if pos >= s.len() {
            assert(types_text(acc) + s.subrange(pos, s.len() as int) =~= types_text(acc));
        } else {
            lemma_parse_one_text(s, pos, 0);
            let (t, mid) = parse_one(s, pos, 0)->Ok_0;
            lemma_parse_all_are_text(s, mid, acc.push(t));
            lemma_types_text_push(acc, t);
            assert(types_text(acc) + s.subrange(pos, mid) + s.subrange(mid, s.len() as int)
                =~= types_text(acc) + s.subrange(pos, s.len() as int));
        }
    }
}

/// Text and types are two forms of the same thing: a signature is the
/// text of its types, and the text of types that a signature can hold is
/// a signature of exactly these types.
pub proof fn lemma_signature_round_trip(s: Seq<char>, ts: Seq<SpecType>)
    ensures
        parse_description_spec(s) == Ok::<Seq<SpecType>, Error>(ts) ==> types_text(ts) == s,
        types_wf(ts) && types_depth(ts) <= MAX_NESTING_DEPTH && types_text(ts).len()
            <= MAX_SIGNATURE_LEN ==> parse_description_spec(types_text(ts)) == Ok::<
            Seq<SpecType>,
            Error,
        >(ts),
{
    if parse_description_spec(s) == Ok::<Seq<SpecType>, Error>(ts) {
        lemma_parse_all_are_text(s, 0, Seq::empty());
        assert(types_text(Seq::<SpecType>::empty()) + s.subrange(0, s.len() as int) =~= s);
    }
    if types_wf(ts) && types_depth(ts) <= MAX_NESTING_DEPTH && types_text(ts).len()
        <= MAX_SIGNATURE_LEN {
        let text = types_text(ts);
        lemma_types_text_chars(ts);
        assert(text.subrange(0, text.len() as int) =~= text);
        lemma_parse_all_of_text(text, 0, Seq::empty(), ts);
        assert(Seq::<SpecType>::empty() + ts =~= ts);
    }
}

/// The text of one type is a signature of that type alone.
pub proof fn lemma_parse_single(t: SpecType)
    requires
        t.wf(),
        t.depth() <= MAX_NESTING_DEPTH,
        t.text().len() <= MAX_SIGNATURE_LEN,
    ensures
        parse_description_spec(t.text()) == Ok::<Seq<SpecType>, Error>(seq![t]),
{
    let ts = seq![t];
    assert(ts.drop_last() =~= Seq::<SpecType>::empty());
    assert(types_text(ts.drop_last()) =~= Seq::<char>::empty());
    assert(types_text(ts) =~= t.text());
    assert(types_depth(ts.drop_last()) == 0);
    assert(types_wf(ts.drop_last()));
    assert(ts.last() == t);
    assert(types_wf(ts));
    lemma_signature_round_trip(t.text(), ts);
}

/// A signature with the text of one more type behind it is the signature
/// of the types that it held and that type.
pub proof fn lemma_parse_push(s: Seq<char>, ts: Seq<SpecType>, t: SpecType)
    requires
        parse_description_spec(s) == Ok::<Seq<SpecType>, Error>(ts),
        t.wf(),
        t.depth() <= MAX_NESTING_DEPTH,
        s.len() + t.text().len() <= MAX_SIGNATURE_LEN,
    ensures
        parse_description_spec(s + t.text()) == Ok::<Seq<SpecType>, Error>(ts.push(t)),
{
    lemma_signature_round_trip(s, ts);
    lemma_parse_description_wf(s);
    lemma_types_text_push(ts, t);
    lemma_signature_round_trip(s + t.text(), ts.push(t));
}

/// A text of signature characters is ASCII.
pub proof fn lemma_ascii_signature(s: Seq<char>)
    requires
        all_signature_chars(s),
    ensures
        is_ascii_chars(s),
{
    assert forall|i: int| 0 <= i < s.len() implies '\0' <= #[trigger] s[i] <= '\u{7f}' by {
        assert(is_signature_char(s[i]));
    }
}

/// The text of the first types of a run is the beginning of the text of the run.
pub proof fn lemma_types_text_take(ts: Seq<SpecType>, n: nat)
    requires
        n <= ts.len(),
    ensures
        types_text(ts.take(n as int)).is_prefix_of(types_text(ts)),
        n < ts.len() ==> types_text(ts.take(n + 1 as int)) == types_text(ts.take(n as int))
            + ts[n as int].text(),
    decreases ts.len() - n,
{
    if n == ts.len() {
        assert(ts.take(n as int) =~= ts);
    } else {
        assert(ts.take(n + 1 as int).drop_last() =~= ts.take(n as int));
        lemma_types_text_take(ts, n + 1);
    }
}

} // verus!
