//! `==` and `clone` for values: two values are equal when they are the
//! same value to the format.
use crate::params::entries_model;
use crate::params::lemma_entries_model;
use crate::params::lemma_params_model;
use crate::params::params_model;
use crate::params::Array;
use crate::params::Base;
use crate::params::Container;
use crate::params::Dict;
use crate::params::Param;
use crate::params::Variant;
use vstd::prelude::*;
use vstd::std_specs::cmp::PartialEqSpecImpl;

verus! {

impl Base {
    /// Whether the two are the same value.
    pub fn same(&self, other: &Base) -> (r: bool)
        ensures
            r == (self@ == other@),
    {
        match (self, other) {
            (Base::Double(a), Base::Double(b)) => *a == *b,
            (Base::String(a), Base::String(b)) => crate::text::same_text(a.as_str(), b.as_str()),
            (Base::Signature(a), Base::Signature(b)) => crate::text::same_text(
                a.as_str(),
                b.as_str(),
            ),
            (Base::ObjectPath(a), Base::ObjectPath(b)) => crate::text::same_text(
                a.as_str(),
                b.as_str(),
            ),
            (Base::Boolean(a), Base::Boolean(b)) => *a == *b,
            (Base::Byte(a), Base::Byte(b)) => *a == *b,
            (Base::Int16(a), Base::Int16(b)) => *a == *b,
            (Base::Uint16(a), Base::Uint16(b)) => *a == *b,
            (Base::Int32(a), Base::Int32(b)) => *a == *b,
            (Base::Uint32(a), Base::Uint32(b)) => *a == *b,
            (Base::UnixFd(a), Base::UnixFd(b)) => a.fd == b.fd,
            (Base::Int64(a), Base::Int64(b)) => *a == *b,
            (Base::Uint64(a), Base::Uint64(b)) => *a == *b,
            _ => false,
        }
    }

    /// A copy of this value.
    pub fn duplicate(&self) -> (r: Base)
        ensures
            r@ == self@,
    {
        match self {
            Base::Double(v) => Base::Double(*v),
            Base::String(s) => Base::String(s.clone()),
            Base::Signature(s) => Base::Signature(s.clone()),
            Base::ObjectPath(s) => Base::ObjectPath(s.clone()),
            Base::Boolean(v) => Base::Boolean(*v),
            Base::Byte(v) => Base::Byte(*v),
            Base::Int16(v) => Base::Int16(*v),
            Base::Uint16(v) => Base::Uint16(*v),
            Base::Int32(v) => Base::Int32(*v),
            Base::Uint32(v) => Base::Uint32(*v),
            Base::UnixFd(v) => Base::UnixFd(*v),
            Base::Int64(v) => Base::Int64(*v),
            Base::Uint64(v) => Base::Uint64(*v),
        }
    }
}

/// Whether the two runs hold the same values.
#[verifier::loop_isolation(false)]
fn same_values(a: &Vec<Param>, b: &Vec<Param>) -> (r: bool)
    ensures
        r == (params_model(a@, a@.len()) == params_model(b@, b@.len())),
    decreases a,
{
    proof {
        lemma_params_model(a@, a@.len());
        lemma_params_model(b@, b@.len());
    }
    if a.len() != b.len() {
        return false;
    }
    let mut i: usize = 0;
    while i < a.len()
        invariant
            i <= a.len(),
            forall|j: int| 0 <= j < i ==> a@[j].model() == b@[j].model(),
        decreases a.len() - i,
    {
        let x = &a[i];
        if !x.same(&b[i]) {
            assert(params_model(a@, a@.len())[i as int] != params_model(b@, b@.len())[i as int]);
            return false;
        }
        i += 1;
    }
    assert(params_model(a@, a@.len()) =~= params_model(b@, b@.len()));
    true
}

/// Whether the two runs hold the same entries.
#[verifier::loop_isolation(false)]
fn same_entries(a: &Vec<(Param, Param)>, b: &Vec<(Param, Param)>) -> (r: bool)
    ensures
        r == (entries_model(a@, a@.len()) == entries_model(b@, b@.len())),
    decreases a,
{
    proof {
        lemma_entries_model(a@, a@.len());
        lemma_entries_model(b@, b@.len());
    }
    if a.len() != b.len() {
        return false;
    }
    let mut i: usize = 0;
    while i < a.len()
        invariant
            i <= a.len(),
            forall|j: int|
                0 <= j < i ==> a@[j].0.model() == b@[j].0.model() && a@[j].1.model()
                    == b@[j].1.model(),
        decreases a.len() - i,
    {
        let x = &a[i];
        let y = &b[i];
        if !x.0.same(&y.0) || !x.1.same(&y.1) {
            assert(entries_model(a@, a@.len())[i as int] != entries_model(b@, b@.len())[i as int]);
            return false;
        }
        i += 1;
    }
    assert(entries_model(a@, a@.len()) =~= entries_model(b@, b@.len()));
    true
}

/// A copy of a run of values.
#[verifier::loop_isolation(false)]
fn duplicate_values(a: &Vec<Param>) -> (r: Vec<Param>)
    ensures
        params_model(r@, r@.len()) == params_model(a@, a@.len()),
    decreases a,
{
    let mut out: Vec<Param> = Vec::new();
    let mut i: usize = 0;
    while i < a.len()
        invariant
            i <= a.len(),
            out@.len() == i,
            forall|j: int| 0 <= j < i ==> out@[j].model() == a@[j].model(),
        decreases a.len() - i,
    {
        let x = &a[i];
        out.push(x.duplicate());
        i += 1;
    }
    proof {
        lemma_params_model(a@, a@.len());
        lemma_params_model(out@, out@.len());
        assert(params_model(out@, out@.len()) =~= params_model(a@, a@.len()));
    }
    out
}

/// A copy of a run of entries.
#[verifier::loop_isolation(false)]
fn duplicate_entries(a: &Vec<(Param, Param)>) -> (r: Vec<(Param, Param)>)
    ensures
        entries_model(r@, r@.len()) == entries_model(a@, a@.len()),
    decreases a,
{
    let mut out: Vec<(Param, Param)> = Vec::new();
    let mut i: usize = 0;
    while i < a.len()
        invariant
            i <= a.len(),
            out@.len() == i,
            forall|j: int|
                0 <= j < i ==> out@[j].0.model() == a@[j].0.model() && out@[j].1.model()
                    == a@[j].1.model(),
        decreases a.len() - i,
    {
        let x = &a[i];
        out.push((x.0.duplicate(), x.1.duplicate()));
        i += 1;
    }
    proof {
        lemma_entries_model(a@, a@.len());
        lemma_entries_model(out@, out@.len());
        assert(entries_model(out@, out@.len()) =~= entries_model(a@, a@.len()));
    }
    out
}

impl Container {
    /// Whether the two are the same value.
    pub fn same(&self, other: &Container) -> (r: bool)
        ensures
            r == (self@ == other@),
        decreases self,
    {
        match (self, other) {
            (Container::Array(a), Container::Array(b)) => a.element_sig.same(&b.element_sig)
                && same_values(&a.values, &b.values),
            (Container::Struct(a), Container::Struct(b)) => same_values(a, b),
            (Container::Dict(a), Container::Dict(b)) => a.key_sig == b.key_sig
                && a.value_sig.same(&b.value_sig) && same_entries(&a.map, &b.map),
            (Container::Variant(a), Container::Variant(b)) => a.sig.same(&b.sig) && a.value.same(
                &b.value,
            ),
            _ => false,
        }
    }

    /// A copy of this value.
    pub fn duplicate(&self) -> (r: Container)
        ensures
            r@ == self@,
        decreases self,
    {
        match self {
            Container::Array(a) => Container::Array(
                Array { element_sig: a.element_sig.duplicate(), values: duplicate_values(&a.values) },
            ),
            Container::Struct(a) => Container::Struct(duplicate_values(a)),
            Container::Dict(a) => Container::Dict(
                Dict {
                    key_sig: a.key_sig,
                    value_sig: a.value_sig.duplicate(),
                    map: duplicate_entries(&a.map),
                },
            ),
            Container::Variant(a) => Container::Variant(
                Box::new(Variant { sig: a.sig.duplicate(), value: a.value.duplicate() }),
            ),
        }
    }
}

impl Param {
    /// Whether the two are the same value.
    pub fn same(&self, other: &Param) -> (r: bool)
        ensures
            r == (self@ == other@),
        decreases self,
    {
        match (self, other) {
            (Param::Base(a), Param::Base(b)) => a.same(b),
            (Param::Container(a), Param::Container(b)) => a.same(b),
            (Param::Base(a), Param::Container(b)) => {
                false
            },
            (Param::Container(a), Param::Base(b)) => {
                false
            },
        }
    }

    /// A copy of this value.
    pub fn duplicate(&self) -> (r: Param)
        ensures
            r@ == self@,
        decreases self,
    {
        match self {
            Param::Base(b) => Param::Base(b.duplicate()),
            Param::Container(c) => Param::Container(c.duplicate()),
        }
    }
}

impl PartialEq for Param {
    fn eq(&self, other: &Param) -> (r: bool) {
        self.same(other)
    }
}

impl PartialEqSpecImpl for Param {
    open spec fn obeys_eq_spec() -> bool {
        true
    }

    open spec fn eq_spec(&self, other: &Param) -> bool {
        self@ == other@
    }
}

impl PartialEq for Base {
    fn eq(&self, other: &Base) -> (r: bool) {
        self.same(other)
    }
}

impl PartialEqSpecImpl for Base {
    open spec fn obeys_eq_spec() -> bool {
        true
    }

    open spec fn eq_spec(&self, other: &Base) -> bool {
        self@ == other@
    }
}

impl PartialEq for Container {
    fn eq(&self, other: &Container) -> (r: bool) {
        self.same(other)
    }
}

impl PartialEqSpecImpl for Container {
    open spec fn obeys_eq_spec() -> bool {
        true
    }

    open spec fn eq_spec(&self, other: &Container) -> bool {
        self@ == other@
    }
}

impl Clone for Param {
    fn clone(&self) -> (r: Param)
        ensures
            r@ == self@,
    {
        self.duplicate()
    }
}

impl Clone for Base {
    fn clone(&self) -> (r: Base)
        ensures
            r@ == self@,
    {
        self.duplicate()
    }
}

impl Clone for Container {
    fn clone(&self) -> (r: Container)
        ensures
            r@ == self@,
    {
        self.duplicate()
    }
}

} // verus!
