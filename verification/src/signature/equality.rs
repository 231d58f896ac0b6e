//! `==` and `clone` for signature types: two types are equal when they
//! stand for the same D-Bus type.
use crate::signature::Container;
use crate::signature::StructTypes;
use crate::signature::Type;
use vstd::prelude::*;
use vstd::std_specs::cmp::PartialEqSpecImpl;

verus! {

impl PartialEq for Type {
    fn eq(&self, other: &Type) -> (r: bool) {
        self.same(other)
    }
}

impl PartialEqSpecImpl for Type {
    open spec fn obeys_eq_spec() -> bool {
        true
    }

    open spec fn eq_spec(&self, other: &Type) -> bool {
        self@ == other@
    }
}

impl PartialEq for Container {
    fn eq(&self, other: &Container) -> (r: bool) {
        self.same(other)
    }
}

impl PartialEqSpecImpl for Container {
    open spec fn obeys_eq_spec() -> bool {
        true
    }

    open spec fn eq_spec(&self, other: &Container) -> bool {
        self@ == other@
    }
}

impl Clone for Type {
    fn clone(&self) -> (r: Type)
        ensures
            r@ == self@,
    {
        self.duplicate()
    }
}

impl Clone for Container {
    fn clone(&self) -> (r: Container)
        ensures
            r@ == self@,
    {
        self.duplicate()
    }
}

impl Clone for StructTypes {
    fn clone(&self) -> (r: StructTypes)
        ensures
            r@ == self@,
    {
        clone_members(self)
    }
}

fn clone_members(types: &StructTypes) -> (r: StructTypes)
    ensures
        r@ == types@,
{
    let mut out: Vec<Type> = Vec::new();
    let mut i: usize = 0;
    while i < types.0.len()
        invariant
            i <= types.0.len(),
            out@.len() == i,
            forall|j: int| 0 <= j < i ==> out@[j].model() == types.0@[j].model(),
        decreases types.0.len() - i,
    {
        out.push(types.0[i].duplicate());
        i += 1;
    }
    proof {
        crate::signature::lemma_types_model_prefix(out@, types.0@, out@.len());
    }
    StructTypes(out)
}

} // verus!
